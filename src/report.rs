//! Line numbering: which lines of a file match, and where.
use vstd::prelude::*;
use crate::matching::{
    lemma_empty_term_matches_at_start, lemma_long_term_never_matches, locate, lower_bytes,
    lowercase_ascii, match_start,
};
use crate::options::CliOptions;

verus! {

/// A matching line: its 1-based number and the span `[start, start + len)`
/// of the match within the line's bytes.
#[derive(Debug, Clone, Copy, PartialEq, Eq, Structural)]
pub struct Hit {
    pub line_no: usize,
    pub start: usize,
    pub len: usize,
}

impl View for Hit {
    type V = (nat, nat, nat);

    open spec fn view(&self) -> (nat, nat, nat) {
        (self.line_no as nat, self.start as nat, self.len as nat)
    }
}

/// The bytes of each line.
pub open spec fn line_views(lines: Seq<Vec<u8>>) -> Seq<Seq<u8>> {
    lines.map_values(|l: Vec<u8>| l@)
}

/// The model of each hit.
pub open spec fn hit_views(hits: Seq<Hit>) -> Seq<(nat, nat, nat)> {
    hits.map_values(|h: Hit| h@)
}

/// What line number `line_no` holding `line` reports, if it matches.
pub open spec fn hit_for(line_no: nat, line: Seq<u8>, term: Seq<u8>, ignore_case: bool) -> Option<
    (nat, nat, nat),
> {
    match match_start(line, term, ignore_case) {
        Some(k) => Some((line_no, k, term.len())),
        None => None,
    }
}

/// The hits of a whole file, in file order: one for each matching line,
/// numbered by its 1-based position among all lines.
pub open spec fn report(lines: Seq<Seq<u8>>, term: Seq<u8>, ignore_case: bool) -> Seq<
    (nat, nat, nat),
>
    decreases lines.len(),
{
    if lines.len() == 0 {
        Seq::empty()
    } else {
        let before = report(lines.drop_last(), term, ignore_case);
        match hit_for(lines.len(), lines.last(), term, ignore_case) {
            Some(h) => before.push(h),
            None => before,
        }
    }
}

/// Every hit carries the 1-based position of its line among all lines of
/// the file, matching or not: hits come in increasing line order, each names
/// a line that matches at the reported offset with the term's length, and
/// every matching line is reported.
pub proof fn lemma_report_line_numbers(lines: Seq<Seq<u8>>, term: Seq<u8>, ignore_case: bool)
    ensures
        forall|k: int|
            0 <= k < report(lines, term, ignore_case).len() ==> {
                let h = #[trigger] report(lines, term, ignore_case)[k];
                &&& 1 <= h.0 <= lines.len()
                &&& match_start(lines[h.0 - 1], term, ignore_case) == Some(h.1)
                &&& h.2 == term.len()
            },
        forall|k1: int, k2: int|
            0 <= k1 < k2 < report(lines, term, ignore_case).len() ==> (#[trigger] report(
                lines,
                term,
                ignore_case,
            )[k1]).0 < (#[trigger] report(lines, term, ignore_case)[k2]).0,
        forall|i: int|
            0 <= i < lines.len() && (#[trigger] match_start(lines[i], term, ignore_case)) is Some
                ==> exists|k: int|
                0 <= k < report(lines, term, ignore_case).len() && (#[trigger] report(
                    lines,
                    term,
                    ignore_case,
                )[k]).0 == i + 1,
    decreases lines.len(),
{
    if lines.len() > 0 {
        let prefix = lines.drop_last();
        lemma_report_line_numbers(prefix, term, ignore_case);
        let before = report(prefix, term, ignore_case);
        let r = report(lines, term, ignore_case);
        assert forall|k: int| 0 <= k < before.len() implies before[k].0 <= prefix.len() && lines[
            before[k].0 - 1] == prefix[before[k].0 - 1] by {}
        assert forall|i: int|
            0 <= i < lines.len() && (#[trigger] match_start(lines[i], term, ignore_case)) is Some
                implies exists|k: int| 0 <= k < r.len() && (#[trigger] r[k]).0 == i + 1 by {
            if i < prefix.len() {
                assert(lines[i] == prefix[i]);
                assert(match_start(prefix[i], term, ignore_case) is Some);
                let k = choose|k: int| 0 <= k < before.len() && (#[trigger] before[k]).0 == i + 1;
                assert(r[k] == before[k]);
            } else {
                assert(r[r.len() - 1].0 == i + 1);
            }
        }
    }
}

/// The same lines searched the same way give the same hits: the report
/// depends on the file's lines, the term and the case setting alone.
pub proof fn lemma_report_repeatable(
    lines_a: Seq<Seq<u8>>,
    lines_b: Seq<Seq<u8>>,
    term: Seq<u8>,
    ignore_case: bool,
)
    requires
        lines_a == lines_b,
    ensures
        report(lines_a, term, ignore_case) == report(lines_b, term, ignore_case),
{
}

/// The empty term reports every line, at offset 0 with length 0.
pub proof fn lemma_empty_term_reports_every_line(lines: Seq<Seq<u8>>, ignore_case: bool)
    ensures
        report(lines, Seq::empty(), ignore_case) == Seq::new(
            lines.len(),
            |i: int| ((i + 1) as nat, 0nat, 0nat),
        ),
    decreases lines.len(),
{
    if lines.len() > 0 {
        lemma_empty_term_reports_every_line(lines.drop_last(), ignore_case);
        lemma_empty_term_matches_at_start(lines.last(), ignore_case);
        assert(report(lines, Seq::empty(), ignore_case) =~= Seq::new(
            lines.len(),
            |i: int| ((i + 1) as nat, 0nat, 0nat),
        ));
    }
}

/// A term longer than every line of the file reports nothing.
pub proof fn lemma_long_term_reports_nothing(lines: Seq<Seq<u8>>, term: Seq<u8>, ignore_case: bool)
    requires
        forall|i: int| 0 <= i < lines.len() ==> (#[trigger] lines[i]).len() < term.len(),
    ensures
        report(lines, term, ignore_case) == Seq::<(nat, nat, nat)>::empty(),
    decreases lines.len(),
{
    if lines.len() > 0 {
        let prefix = lines.drop_last();
        assert forall|i: int| 0 <= i < prefix.len() implies (#[trigger] prefix[i]).len()
            < term.len() by {
            assert(prefix[i] == lines[i]);
        }
        lemma_long_term_reports_nothing(prefix, term, ignore_case);
        lemma_long_term_never_matches(lines.last(), term, ignore_case);
    }
}

/// Scans a file line by line, numbering lines from 1 and locating the
/// search term in each.
pub struct Searcher {
    term: Vec<u8>,
    folded_term: Vec<u8>,
    ignore_case: bool,
    next_line: usize,
}

impl Searcher {
    /// The term searched for.
    pub closed spec fn searched_term(&self) -> Seq<u8> {
        self.term@
    }

    /// Whether case is ignored when the verbatim search fails.
    pub closed spec fn ignores_case(&self) -> bool {
        self.ignore_case
    }

    /// The number the next line will get.
    pub closed spec fn next_line(&self) -> nat {
        self.next_line as nat
    }

    /// The lowercased term is kept beside the term.
    pub closed spec fn wf(&self) -> bool {
        self.folded_term@ == lower_bytes(self.term@) && self.next_line >= 1
    }

    /// A searcher for `term` under `opt`, before the first line.
    pub fn new(term: &[u8], opt: &CliOptions) -> (r: Self)
        ensures
            r.wf(),
            r.searched_term() == term@,
            r.ignores_case() == opt.ignore_case,
            r.next_line() == 1,
    {
        let mut owned: Vec<u8> = Vec::with_capacity(term.len());
        let mut i: usize = 0;
        while i < term.len()
            invariant
                i <= term@.len(),
                owned@ =~= term@.subrange(0, i as int),
            decreases term@.len() - i,
        {
            owned.push(term[i]);
            i = i + 1;
        }
        assert(owned@ =~= term@);
        Searcher {
            folded_term: lowercase_ascii(term),
            term: owned,
            ignore_case: opt.ignore_case,
            next_line: 1,
        }
    }

    /// The number the next line will get.
    pub fn next_line_number(&self) -> (r: usize)
        ensures
            r == self.next_line(),
    {
        self.next_line
    }

    /// Takes the next line of the file: numbers it and reports where the
    /// term is found in it, if anywhere.
    pub fn step(&mut self, line: &[u8]) -> (r: Option<Hit>)
        requires
            old(self).wf(),
            old(self).next_line() < usize::MAX,
        ensures
            final(self).wf(),
            final(self).searched_term() == old(self).searched_term(),
            final(self).ignores_case() == old(self).ignores_case(),
            final(self).next_line() == old(self).next_line() + 1,
            match r {
                Some(h) => hit_for(
                    old(self).next_line(),
                    line@,
                    old(self).searched_term(),
                    old(self).ignores_case(),
                ) == Some(h@),
                None => hit_for(
                    old(self).next_line(),
                    line@,
                    old(self).searched_term(),
                    old(self).ignores_case(),
                ) is None,
            },
    {
        let line_no = self.next_line;
        self.next_line = self.next_line + 1;
        match locate(line, self.term.as_slice(), self.folded_term.as_slice(), self.ignore_case) {
            Some(k) => Some(Hit { line_no, start: k, len: self.term.len() }),
            None => None,
        }
    }
}

/// The hits of a whole file given as its lines.
pub fn search_lines(lines: &[Vec<u8>], term: &[u8], opt: &CliOptions) -> (r: Vec<Hit>)
    requires
        lines@.len() < usize::MAX,
    ensures
        hit_views(r@) == report(line_views(lines@), term@, opt.ignore_case),
{
    let mut searcher = Searcher::new(term, opt);
    let mut hits: Vec<Hit> = Vec::new();
    let mut i: usize = 0;
    while i < lines.len()
        invariant
            i <= lines@.len() < usize::MAX,
            searcher.wf(),
            searcher.searched_term() == term@,
            searcher.ignores_case() == opt.ignore_case,
            searcher.next_line() == i + 1,
            hit_views(hits@) == report(
                line_views(lines@.subrange(0, i as int)),
                term@,
                opt.ignore_case,
            ),
        decreases lines@.len() - i,
    {
        let ghost seen = line_views(lines@.subrange(0, i as int));
        let ghost now = line_views(lines@.subrange(0, i + 1));
        assert(now.drop_last() =~= seen);
        assert(now.last() == lines@[i as int]@);
        let found = searcher.step(lines[i].as_slice());
        match found {
            Some(h) => {
                hits.push(h);
                assert(hit_views(hits@) =~= report(seen, term@, opt.ignore_case).push(h@));
            },
            None => {},
        }
        i = i + 1;
    }
    assert(lines@.subrange(0, lines@.len() as int) =~= lines@);
    hits
}

} // verus!
