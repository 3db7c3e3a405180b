//! The highlighted form of a matching line: styled segments, and the bytes
//! they stand for on an ANSI terminal.
use vstd::prelude::*;
use crate::matching::lemma_match_within_line;
use crate::report::{hit_for, Hit, Searcher};

verus! {

/// How a segment of output is shown.
#[derive(Debug, Clone, Copy, PartialEq, Eq, Structural)]
pub enum Style {
    /// The line number prefix (blue).
    LineNumber,
    /// The matched span (red).
    Match,
    /// Default colour.
    Reset,
}

/// The ANSI escape sequence that selects a style.
pub open spec fn escape_code(style: Style) -> Seq<u8> {
    match style {
        Style::LineNumber => seq![27u8, 91, 51, 52, 109],
        Style::Match => seq![27u8, 91, 51, 49, 109],
        Style::Reset => seq![27u8, 91, 48, 109],
    }
}

/// The decimal digits of `n`, most significant first.
pub open spec fn decimal(n: nat) -> Seq<u8>
    decreases n,
{
    if n < 10 {
        seq![(48 + n) as u8]
    } else {
        decimal(n / 10).push((48 + n % 10) as u8)
    }
}

/// A line number right-aligned in a field of at least two characters,
/// followed by one space.
pub open spec fn number_field(n: nat) -> Seq<u8> {
    let digits = decimal(n);
    if n < 10 {
        seq![32u8] + digits + seq![32u8]
    } else {
        digits + seq![32u8]
    }
}

/// A piece of output text and its style.
#[derive(Debug, PartialEq, Eq)]
pub struct Segment {
    pub style: Style,
    pub text: Vec<u8>,
}

impl View for Segment {
    type V = (Style, Seq<u8>);

    open spec fn view(&self) -> (Style, Seq<u8>) {
        (self.style, self.text@)
    }
}

/// The model of each segment.
pub open spec fn segment_views(segs: Seq<Segment>) -> Seq<(Style, Seq<u8>)> {
    segs.map_values(|s: Segment| s@)
}

/// The segments of a matching line: its number, the text before the match,
/// the match, and the text after it (with the line's own terminator).
pub open spec fn line_segments(line_no: nat, line: Seq<u8>, start: nat, len: nat) -> Seq<
    (Style, Seq<u8>),
> {
    seq![
        (Style::LineNumber, number_field(line_no)),
        (Style::Reset, line.subrange(0, start as int)),
        (Style::Match, line.subrange(start as int, (start + len) as int)),
        (Style::Reset, line.subrange((start + len) as int, line.len() as int)),
    ]
}

/// Each segment's escape sequence followed by its text, in order.
pub open spec fn rendered(segs: Seq<(Style, Seq<u8>)>) -> Seq<u8>
    decreases segs.len(),
{
    if segs.len() == 0 {
        Seq::empty()
    } else {
        rendered(segs.drop_last()) + escape_code(segs.last().0) + segs.last().1
    }
}

/// The bytes written for a matching line.
pub open spec fn highlighted(line_no: nat, line: Seq<u8>, start: nat, len: nat) -> Seq<u8> {
    escape_code(Style::LineNumber) + number_field(line_no) + escape_code(Style::Reset)
        + line.subrange(0, start as int) + escape_code(Style::Match) + line.subrange(
        start as int,
        (start + len) as int,
    ) + escape_code(Style::Reset) + line.subrange((start + len) as int, line.len() as int)
}

impl Style {
    /// The escape sequence that selects this style.
    pub fn escape(&self) -> (r: Vec<u8>)
        ensures
            r@ == escape_code(*self),
    {
        let r = match self {
            Style::LineNumber => vec![27u8, 91, 51, 52, 109],
            Style::Match => vec![27u8, 91, 51, 49, 109],
            Style::Reset => vec![27u8, 91, 48, 109],
        };
        assert(r@ =~= escape_code(*self));
        r
    }
}

/// Appends the decimal digits of `n` to `out`.
fn push_decimal(n: usize, out: &mut Vec<u8>)
    ensures
        final(out)@ == old(out)@ + decimal(n as nat),
    decreases n,
{
    if n >= 10 {
        push_decimal(n / 10, out);
    }
    let digit = (48 + n % 10) as u8;
    out.push(digit);
    assert(final(out)@ =~= old(out)@ + decimal(n as nat));
}

/// The line number field: the number right-aligned to two characters, then
/// a space.
pub fn line_number_field(n: usize) -> (r: Vec<u8>)
    ensures
        r@ == number_field(n as nat),
{
    let mut r: Vec<u8> = Vec::new();
    if n < 10 {
        r.push(32u8);
    }
    push_decimal(n, &mut r);
    r.push(32u8);
    assert(r@ =~= number_field(n as nat));
    r
}

/// Copies `s[from..to]`.
fn copy_range(s: &[u8], from: usize, to: usize) -> (r: Vec<u8>)
    requires
        from <= to <= s@.len(),
    ensures
        r@ == s@.subrange(from as int, to as int),
{
    let mut r: Vec<u8> = Vec::with_capacity(to - from);
    let mut i: usize = from;
    while i < to
        invariant
            from <= i <= to <= s@.len(),
            r@ =~= s@.subrange(from as int, i as int),
        decreases to - i,
    {
        r.push(s[i]);
        i = i + 1;
    }
    r
}

/// The styled segments of a matching line.
pub fn segments(line: &[u8], hit: &Hit) -> (r: Vec<Segment>)
    requires
        hit.start + hit.len <= line@.len(),
    ensures
        segment_views(r@) == line_segments(
            hit.line_no as nat,
            line@,
            hit.start as nat,
            hit.len as nat,
        ),
{
    let line_len = line.len();
    let end = hit.start + hit.len;
    let r = vec![
        Segment { style: Style::LineNumber, text: line_number_field(hit.line_no) },
        Segment { style: Style::Reset, text: copy_range(line, 0, hit.start) },
        Segment { style: Style::Match, text: copy_range(line, hit.start, end) },
        Segment { style: Style::Reset, text: copy_range(line, end, line_len) },
    ];
    assert(segment_views(r@) =~= line_segments(
        hit.line_no as nat,
        line@,
        hit.start as nat,
        hit.len as nat,
    ));
    r
}

/// Appends every byte of `s` to `out`.
fn push_all(out: &mut Vec<u8>, s: &[u8])
    ensures
        final(out)@ == old(out)@ + s@,
{
    let mut i: usize = 0;
    while i < s.len()
        invariant
            i <= s@.len(),
            out@ =~= old(out)@ + s@.subrange(0, i as int),
        decreases s@.len() - i,
    {
        out.push(s[i]);
        i = i + 1;
    }
    assert(s@.subrange(0, s@.len() as int) =~= s@);
}

/// The bytes that show the segments: each one's escape sequence, then its
/// text.
pub fn render(segs: &[Segment]) -> (r: Vec<u8>)
    ensures
        r@ == rendered(segment_views(segs@)),
{
    let mut out: Vec<u8> = Vec::new();
    let mut i: usize = 0;
    while i < segs.len()
        invariant
            i <= segs@.len(),
            out@ == rendered(segment_views(segs@.subrange(0, i as int))),
        decreases segs@.len() - i,
    {
        let ghost seen = segment_views(segs@.subrange(0, i as int));
        let ghost now = segment_views(segs@.subrange(0, i + 1));
        assert(now.drop_last() =~= seen);
        assert(now.last() == segs@[i as int]@);
        let code = segs[i].style.escape();
        push_all(&mut out, code.as_slice());
        push_all(&mut out, segs[i].text.as_slice());
        i = i + 1;
    }
    assert(segs@.subrange(0, segs@.len() as int) =~= segs@);
    out
}

/// The bytes written for a matching line: the coloured number field, the
/// text before the match, the match in the highlight colour, and the rest of
/// the line.
pub fn render_hit(line: &[u8], hit: &Hit) -> (r: Vec<u8>)
    requires
        hit.start + hit.len <= line@.len(),
    ensures
        r@ == highlighted(hit.line_no as nat, line@, hit.start as nat, hit.len as nat),
{
    let segs = segments(line, hit);
    let r = render(segs.as_slice());
    proof {
        let v = segment_views(segs@);
        assert(v.take(0) =~= Seq::empty());
        assert(v.take(1).drop_last() =~= v.take(0));
        assert(v.take(2).drop_last() =~= v.take(1));
        assert(v.take(3).drop_last() =~= v.take(2));
        assert(v.take(4).drop_last() =~= v.take(3));
        assert(v.take(4) =~= v);
        assert(rendered(v.take(1)) == rendered(v.take(0)) + escape_code(v[0].0) + v[0].1);
        assert(rendered(v.take(2)) == rendered(v.take(1)) + escape_code(v[1].0) + v[1].1);
        assert(rendered(v.take(3)) == rendered(v.take(2)) + escape_code(v[2].0) + v[2].1);
        assert(rendered(v) == rendered(v.take(3)) + escape_code(v[3].0) + v[3].1);
        assert(r@ =~= highlighted(hit.line_no as nat, line@, hit.start as nat, hit.len as nat));
    }
    r
}

/// Takes the next line of the file from `searcher` and gives the bytes to
/// write for it: its highlighted form when it matches, nothing otherwise.
pub fn highlight_line(searcher: &mut Searcher, line: &[u8]) -> (r: Option<Vec<u8>>)
    requires
        old(searcher).wf(),
        old(searcher).next_line() < usize::MAX,
    ensures
        final(searcher).wf(),
        final(searcher).searched_term() == old(searcher).searched_term(),
        final(searcher).ignores_case() == old(searcher).ignores_case(),
        final(searcher).next_line() == old(searcher).next_line() + 1,
        match hit_for(
            old(searcher).next_line(),
            line@,
            old(searcher).searched_term(),
            old(searcher).ignores_case(),
        ) {
            Some(h) => r is Some && r->0@ == highlighted(h.0, line@, h.1, h.2),
            None => r is None,
        },
{
    match searcher.step(line) {
        Some(hit) => {
            proof {
                lemma_match_within_line(line@, old(searcher).searched_term(), old(searcher).ignores_case());
            }
            Some(render_hit(line, &hit))
        },
        None => None,
    }
}

} // verus!
