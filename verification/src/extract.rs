//! Match records and the verified extraction functions.

use vstd::prelude::*;
use vstd::slice::slice_subrange;
use vstd::slice::slice_to_vec;
use vstd::string::StringExecFns;
use crate::engine::Matcher;
use crate::engine::caps_len_of;
use crate::engine::captures_at;
use crate::engine::captures_len;
use crate::engine::compile_err;
use crate::engine::regex_new;
use crate::engine::spans_of;
use crate::model::SpecMatch;
use crate::model::extract_spec;
use crate::model::first_only;
use crate::model::full_span;
use crate::model::group_of;
use crate::model::lemma_rec_of_wf;
use crate::model::next_scan_pos;
use crate::model::rec_of;
use crate::model::scan_from;
use crate::model::wf_match;

verus! {

/// A single located match: the matched bytes, one entry per declared capture
/// group (absent when the group did not participate in this occurrence), and
/// the byte span `[start, end)` of the whole match in the original text.
#[derive(Clone, Debug, PartialEq, Eq)]
pub struct MatchRecord {
    pub full: Vec<u8>,
    pub groups: Vec<Option<Vec<u8>>>,
    pub start: usize,
    pub end: usize,
}

/// The bytes behind one stored capture-group entry.
pub open spec fn group_view(g: Option<Vec<u8>>) -> Option<Seq<u8>> {
    match g {
        Some(v) => Some(v@),
        None => None,
    }
}

/// The byte sequences behind a vector of capture-group entries.
pub open spec fn groups_view(s: Seq<Option<Vec<u8>>>) -> Seq<Option<Seq<u8>>> {
    s.map_values(|g: Option<Vec<u8>>| group_view(g))
}

impl View for MatchRecord {
    type V = SpecMatch;

    open spec fn view(&self) -> SpecMatch {
        SpecMatch {
            full: self.full@,
            groups: groups_view(self.groups@),
            start: self.start as int,
            end: self.end as int,
        }
    }
}

/// The spec records behind a sequence of match records.
pub open spec fn records_view(v: Seq<MatchRecord>) -> Seq<SpecMatch> {
    v.map_values(|r: MatchRecord| r@)
}

proof fn lemma_groups_view_push(s: Seq<Option<Vec<u8>>>, g: Option<Vec<u8>>)
    ensures
        groups_view(s.push(g)) =~= groups_view(s).push(group_view(g)),
{
}

proof fn lemma_records_view_push(v: Seq<MatchRecord>, r: MatchRecord)
    ensures
        records_view(v.push(r)) =~= records_view(v).push(r@),
{
}

/// Build the record for one match from the spans the engine reported:
/// group 0 becomes the full match and its span, each later group an entry
/// that is present exactly when the group participated.
pub fn build_match(caps: &Vec<Option<(usize, usize)>>, text: &[u8]) -> (r: MatchRecord)
    ensures
        r@ == rec_of(text@, spans_of(caps@)),
        wf_match(text@, r@),
        r@.groups.len() == if caps@.len() >= 1 { caps@.len() - 1 } else { 0int },
{
    let ghost spans = spans_of(caps@);
    let ghost target = rec_of(text@, spans);
    let n = caps.len();
    let (start, end) = if n >= 1 {
        match caps[0] {
            Some(sp) => if sp.0 <= sp.1 && sp.1 <= text.len() {
                sp
            } else {
                (0, 0)
            },
            None => (0, 0),
        }
    } else {
        (0, 0)
    };
    assert((start as int, end as int) == full_span(text@, spans));
    let full = slice_to_vec(slice_subrange(text, start, end));
    let mut groups: Vec<Option<Vec<u8>>> = Vec::new();
    let mut i: usize = 1;
    while i < n
        invariant
            n == caps@.len(),
            1 <= i,
            i <= n || i == 1,
            spans == spans_of(caps@),
            target == rec_of(text@, spans),
            groups_view(groups@) =~= target.groups.take(i - 1),
        decreases n - i,
    {
        let g = match caps[i] {
            Some(sp) => if sp.0 <= sp.1 && sp.1 <= text.len() {
                Some(slice_to_vec(slice_subrange(text, sp.0, sp.1)))
            } else {
                None
            },
            None => None,
        };
        proof {
            assert(group_view(g) == group_of(text@, spans[i as int]));
            assert(target.groups[i - 1] == group_of(text@, spans[i as int]));
            lemma_groups_view_push(groups@, g);
            assert(target.groups.take(i - 1).push(target.groups[i - 1]) =~= target.groups.take(i as int));
        }
        groups.push(g);
        i = i + 1;
    }
    let r = MatchRecord { full, groups, start, end };
    proof {
        assert(r@.groups =~= target.groups);
        assert(r@ =~= target);
        lemma_rec_of_wf(text@, spans);
    }
    r
}

/// Find every non-overlapping match of `m` in `text`, leftmost first. A
/// zero-length match advances the scan by one byte, so the scan always
/// terminates; a pattern that never matches yields the empty vector.
pub fn find_all(m: &Matcher, text: &[u8]) -> (r: Vec<MatchRecord>)
    ensures
        records_view(r@) == scan_from(m@, text@, 0),
        forall|i: int| 0 <= i < r@.len() ==> wf_match(text@, #[trigger] r@[i]@),
        forall|i: int| 0 <= i < r@.len() ==> (#[trigger] r@[i]@).groups.len() + 1 == caps_len_of(m@),
{
    let mut out: Vec<MatchRecord> = Vec::new();
    let mut pos: usize = 0;
    let mut done: bool = false;
    while !done
        invariant
            pos <= text@.len(),
            scan_from(m@, text@, 0) == records_view(out@)
                + (if done { Seq::<SpecMatch>::empty() } else { scan_from(m@, text@, pos as int) }),
            forall|i: int| 0 <= i < out@.len() ==> wf_match(text@, #[trigger] out@[i]@),
            forall|i: int| 0 <= i < out@.len() ==> (#[trigger] out@[i]@).groups.len() + 1 == caps_len_of(m@),
        decreases text@.len() + 1 - pos + (if done { 0int } else { 1int }),
    {
        match captures_at(m, text, pos) {
            None => {
                proof {
                    assert(scan_from(m@, text@, pos as int) =~= Seq::<SpecMatch>::empty());
                    assert(records_view(out@) + Seq::<SpecMatch>::empty() =~= records_view(out@));
                }
                done = true;
            }
            Some(c) => {
                let ghost spans = spans_of(c@);
                let ghost scan_here = scan_from(m@, text@, pos as int);
                let rec = build_match(&c, text);
                let sp = c[0].unwrap();
                proof {
                    assert(spans[0] == Some((sp.0 as int, sp.1 as int)));
                    assert(scan_here == seq![rec_of(text@, spans)]
                        + scan_from(m@, text@, next_scan_pos(text@, pos as int, spans)));
                    lemma_records_view_push(out@, rec);
                    assert(records_view(out@) + scan_here =~= records_view(out@.push(rec))
                        + scan_from(m@, text@, next_scan_pos(text@, pos as int, spans)));
                }
                out.push(rec);
                if sp.1 > sp.0 {
                    assert(next_scan_pos(text@, pos as int, spans) == sp.1 as int);
                    pos = sp.1;
                } else if sp.1 < text.len() {
                    assert(next_scan_pos(text@, pos as int, spans) == sp.1 + 1);
                    pos = sp.1 + 1;
                } else {
                    proof {
                        assert(next_scan_pos(text@, pos as int, spans) == text@.len() + 1);
                        assert(scan_from(m@, text@, text@.len() as int + 1) =~= Seq::<SpecMatch>::empty());
                        assert(records_view(out@) + Seq::<SpecMatch>::empty() =~= records_view(out@));
                    }
                    done = true;
                }
            }
        }
    }
    out
}

/// Find only the leftmost match of `m` in `text`: the empty vector when
/// there is none, otherwise exactly the first record a full scan would
/// yield.
pub fn find_first(m: &Matcher, text: &[u8]) -> (r: Vec<MatchRecord>)
    ensures
        records_view(r@) == first_only(m@, text@),
        forall|i: int| 0 <= i < r@.len() ==> wf_match(text@, #[trigger] r@[i]@),
        forall|i: int| 0 <= i < r@.len() ==> (#[trigger] r@[i]@).groups.len() + 1 == caps_len_of(m@),
{
    match captures_at(m, text, 0) {
        None => {
            let r: Vec<MatchRecord> = Vec::new();
            proof {
                assert(scan_from(m@, text@, 0) =~= Seq::<SpecMatch>::empty());
                assert(records_view(r@) =~= Seq::<SpecMatch>::empty());
            }
            r
        }
        Some(c) => {
            let ghost spans = spans_of(c@);
            let rec = build_match(&c, text);
            let mut r: Vec<MatchRecord> = Vec::new();
            proof {
                assert(scan_from(m@, text@, 0) == seq![rec_of(text@, spans)]
                    + scan_from(m@, text@, next_scan_pos(text@, 0, spans)));
                lemma_records_view_push(r@, rec);
            }
            r.push(rec);
            proof {
                assert(records_view(r@) =~= first_only(m@, text@));
            }
            r
        }
    }
}

/// The result of one extraction: the located matches in left-to-right
/// order, and their number.
#[derive(Clone, Debug, PartialEq, Eq)]
pub struct ExtractionResult {
    pub matches: Vec<MatchRecord>,
    pub count: usize,
}

impl ExtractionResult {
    /// `count` always equals the number of records in `matches`.
    pub open spec fn wf(self) -> bool {
        self.count == self.matches@.len()
    }
}

/// Why a request failed: the pattern did not compile, with the engine's
/// diagnostic text.
#[derive(Clone, Debug, PartialEq, Eq)]
pub enum ExtractError {
    InvalidPattern(String),
}

impl ExtractError {
    /// The full diagnostic, tagged so that a caller can tell a bad pattern
    /// from other failure classes; the engine's own message follows the tag
    /// verbatim.
    pub fn message(&self) -> (r: String)
        ensures
            (match self {
                ExtractError::InvalidPattern(msg) => r@ == "invalid pattern: "@ + msg@,
            }),
    {
        match self {
            ExtractError::InvalidPattern(msg) => {
                let mut s = String::from_str("invalid pattern: ");
                s.append(msg.as_str());
                s
            }
        }
    }
}

/// Compile `pattern` into a matcher, or report why it is invalid. Exactly
/// the patterns the engine accepts compile; the error carries the engine's
/// diagnostic verbatim.
pub fn compile(pattern: &str) -> (r: Result<Matcher, ExtractError>)
    ensures
        r is Ok <==> compile_err(pattern@) is None,
        r matches Ok(m) ==> m@ == pattern@,
        r matches Err(e) ==> (e matches ExtractError::InvalidPattern(msg)
            && compile_err(pattern@) matches Some(d) && msg@ == d),
{
    match regex_new(pattern) {
        Ok(m) => Ok(m),
        Err(e) => Err(ExtractError::InvalidPattern(e)),
    }
}

/// The number of capture groups `m` declares, the implicit whole-match
/// group not counted.
pub fn group_count(m: &Matcher) -> (n: usize)
    ensures
        n as nat + 1 == caps_len_of(m@),
{
    let len = captures_len(m);
    len - 1
}

/// The mode used when a request does not name one: all matches.
pub fn default_all() -> (b: bool)
    ensures
        b,
{
    true
}

/// What `handle` promises: success exactly when the pattern compiles, the
/// records exactly those of the requested scan with `count` their number and
/// every record well formed, and failure carrying the engine's diagnostic
/// for the pattern.
pub open spec fn handle_post(p: Seq<char>, t: Seq<u8>, all: bool, r: Result<ExtractionResult, ExtractError>) -> bool {
    match r {
        Ok(res) => {
            &&& compile_err(p) is None
            &&& records_view(res.matches@) == extract_spec(p, t, all)
            &&& res.wf()
            &&& forall|i: int| 0 <= i < res.matches@.len() ==> wf_match(t, #[trigger] res.matches@[i]@)
            &&& forall|i: int| 0 <= i < res.matches@.len()
                ==> (#[trigger] res.matches@[i]@).groups.len() + 1 == caps_len_of(p)
        },
        Err(e) => {
            &&& compile_err(p) is Some
            &&& (e matches ExtractError::InvalidPattern(msg) && msg@ == compile_err(p)->0)
        },
    }
}

/// Extract every match (or, with `all` false, only the first) of `pattern`
/// in `text`. A pattern that compiles never fails: a text without a match,
/// the empty text included, yields a result with no records.
pub fn handle(pattern: &str, text: &[u8], all: bool) -> (r: Result<ExtractionResult, ExtractError>)
    ensures
        handle_post(pattern@, text@, all, r),
{
    let m = match compile(pattern) {
        Ok(m) => m,
        Err(e) => {
            return Err(e);
        },
    };
    let matches = if all {
        find_all(&m, text)
    } else {
        find_first(&m, text)
    };
    let count = matches.len();
    Ok(ExtractionResult { matches, count })
}

/// The mathematical content of a handler result: the records and their
/// count on success, the engine's diagnostic text on failure.
pub open spec fn result_view(r: Result<ExtractionResult, ExtractError>) -> Result<(Seq<SpecMatch>, int), Seq<char>> {
    match r {
        Ok(res) => Ok((records_view(res.matches@), res.count as int)),
        Err(ExtractError::InvalidPattern(msg)) => Err(msg@),
    }
}

/// Extraction is deterministic: two results that `handle` may return for the
/// same pattern, text and mode have identical content — the same records,
/// the same count, or the same diagnostic.
pub proof fn lemma_handle_deterministic(
    p: Seq<char>,
    t: Seq<u8>,
    all: bool,
    r1: Result<ExtractionResult, ExtractError>,
    r2: Result<ExtractionResult, ExtractError>,
)
    ensures
        handle_post(p, t, all, r1) && handle_post(p, t, all, r2) ==> result_view(r1) == result_view(r2),
{
}

} // verus!
