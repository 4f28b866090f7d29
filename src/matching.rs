//! Scanning the lines of a file for any of several patterns, and the report
//! of the lines that matched.
use crate::text::{numbered_text, render_numbered};
use vstd::prelude::*;
use vstd::string::StringExecFns;

verus! {

/// `pat` occurs in `line` as a run of consecutive characters.
pub open spec fn contains_text(line: Seq<char>, pat: Seq<char>) -> bool {
    exists|i: int| 0 <= i <= line.len() - pat.len() && #[trigger] line.subrange(i, i + pat.len()) == pat
}

/// Relies on `str::contains` with a string pattern: it is true exactly when
/// `pat` occurs in `line` as a contiguous part.
#[verifier::external_body]
fn contains(line: &str, pat: &str) -> (r: bool)
    ensures
        r == contains_text(line@, pat@),
{
    line.contains(pat)
}

/// One entry for each pattern, in pattern order, that `line` (at position
/// `number`) contains.
pub open spec fn hits(patterns: Seq<String>, number: nat, line: String) -> Seq<(nat, String)>
    decreases patterns.len(),
{
    if patterns.len() == 0 {
        Seq::empty()
    } else {
        let rest = hits(patterns.drop_last(), number, line);
        if contains_text(line@, patterns.last()@) {
            rest.push((number, line))
        } else {
            rest
        }
    }
}

/// The entries of a scan: for each line in file order, numbered from 1, its
/// hits. A line that contains several patterns is listed once for each.
pub open spec fn matches(patterns: Seq<String>, lines: Seq<String>) -> Seq<(nat, String)>
    decreases lines.len(),
{
    if lines.len() == 0 {
        Seq::empty()
    } else {
        matches(patterns, lines.drop_last()) + hits(patterns, lines.len(), lines.last())
    }
}

/// The report's text: one `"{number}: {line}"` per entry, each ended by a
/// newline.
pub open spec fn report_text(entries: Seq<(nat, String)>) -> Seq<char>
    decreases entries.len(),
{
    if entries.len() == 0 {
        Seq::empty()
    } else {
        report_text(entries.drop_last()) + numbered_text(entries.last().0, entries.last().1@)
            + seq!['\n']
    }
}

/// A line that matched, with its 1-based position in the file.
pub struct MatchedLine {
    line_number: usize,
    line: String,
}

impl MatchedLine {
    pub closed spec fn view(&self) -> (nat, String) {
        (self.line_number as nat, self.line)
    }

    pub fn line_number(&self) -> (r: usize)
        ensures
            r == self.view().0,
    {
        self.line_number
    }

    pub fn line(&self) -> (r: &String)
        ensures
            *r == self.view().1,
    {
        &self.line
    }
}

/// The lines that matched, in file order.
pub struct MatchResult {
    matched_lines: Vec<MatchedLine>,
}

impl MatchResult {
    pub closed spec fn entries(&self) -> Seq<(nat, String)> {
        self.matched_lines@.map_values(|m: MatchedLine| m.view())
    }

    pub fn matched_lines(&self) -> (r: &Vec<MatchedLine>)
        ensures
            r@.map_values(|m: MatchedLine| m.view()) == self.entries(),
    {
        &self.matched_lines
    }

    /// The report as text: one `"{number}: {line}"` per entry, each on a line
    /// of its own.
    pub fn to_string(&self) -> (r: String)
        ensures
            r@ == report_text(self.entries()),
    {
        let mut s = String::new();
        let mut i: usize = 0;
        while i < self.matched_lines.len()
            invariant
                i <= self.matched_lines.len(),
                s@ == report_text(self.entries().take(i as int)),
            decreases self.matched_lines.len() - i,
        {
            let m = &self.matched_lines[i];
            let line = render_numbered(m.line_number, m.line.as_str());
            s.append(line.as_str());
            let nl = "\n";
            proof {
                reveal_strlit("\n");
            }
            s.append(nl);
            proof {
                let e = self.entries().take(i + 1);
                assert(e.drop_last() =~= self.entries().take(i as int));
                assert(s@ =~= report_text(e));
            }
            i = i + 1;
        }
        assert(self.entries().take(i as int) =~= self.entries());
        s
    }
}

/// Scans `lines` for `patterns`: for each line, numbered from 1, one entry for
/// each pattern that it contains.
pub fn match_lines(patterns: &Vec<String>, lines: &Vec<String>) -> (r: MatchResult)
    ensures
        r.entries() == matches(patterns@, lines@),
{
    let mut found: Vec<MatchedLine> = Vec::new();
    let mut i: usize = 0;
    while i < lines.len()
        invariant
            i <= lines.len(),
            found@.map_values(|m: MatchedLine| m.view()) == matches(patterns@, lines@.take(i as int)),
        decreases lines.len() - i,
    {
        let ghost before = found@.map_values(|m: MatchedLine| m.view());
        let mut j: usize = 0;
        while j < patterns.len()
            invariant
                i < lines.len(),
                j <= patterns.len(),
                found@.map_values(|m: MatchedLine| m.view()) == before + hits(
                    patterns@.take(j as int),
                    (i + 1) as nat,
                    lines@[i as int],
                ),
            decreases patterns.len() - j,
        {
            let ghost prev = found@;
            let hit = contains(lines[i].as_str(), patterns[j].as_str());
            if hit {
                found.push(MatchedLine { line_number: i + 1, line: lines[i].clone() });
            }
            proof {
                let p = patterns@.take(j + 1);
                let v = |m: MatchedLine| m.view();
                assert(p.drop_last() =~= patterns@.take(j as int));
                assert(p.last() == patterns@[j as int]);
                if hit {
                    assert(found@.map_values(v) =~= prev.map_values(v).push(((i + 1) as nat, lines@[i as int])));
                } else {
                    assert(found@.map_values(v) =~= prev.map_values(v));
                }
                assert(found@.map_values(|m: MatchedLine| m.view()) =~= before + hits(
                    p,
                    (i + 1) as nat,
                    lines@[i as int],
                ));
            }
            j = j + 1;
        }
        proof {
            let t = lines@.take(i + 1);
            assert(t.drop_last() =~= lines@.take(i as int));
            assert(patterns@.take(j as int) =~= patterns@);
        }
        i = i + 1;
    }
    assert(lines@.take(i as int) =~= lines@);
    MatchResult { matched_lines: found }
}

} // verus!
