//! The trusted boundary to the regex engine.
//!
//! Everything the library knows about the `regex` crate is stated here as
//! contracts on thin wrappers around the engine's calls; the rest of the
//! crate is verified against these contracts alone. Each wrapper's doc
//! comment names the engine function it relies on.

use vstd::prelude::*;

verus! {

#[verifier::external_type_specification]
#[verifier::external_body]
pub struct ExRegex(regex::bytes::Regex);

/// The diagnostic produced by compiling pattern `p`: `None` when `p` is a
/// valid pattern, `Some(msg)` with the engine's message when it is not.
/// Compilation is a pure function of the pattern text.
pub uninterp spec fn compile_err(p: Seq<char>) -> Option<Seq<char>>;

/// The spans the engine reports when searching `t` for the leftmost match of
/// pattern `p` beginning at or after byte offset `start`: `None` when no such
/// match exists, otherwise one optional byte span per capture group, the
/// implicit whole-match group first.
pub uninterp spec fn caps_at(p: Seq<char>, t: Seq<u8>, start: int) -> Option<Seq<Option<(int, int)>>>;

/// The engine's capture-group count for pattern `p`, the implicit whole-match
/// group included.
pub uninterp spec fn caps_len_of(p: Seq<char>) -> nat;

/// The integer spans behind a sequence of optional byte spans.
pub open spec fn spans_of(c: Seq<Option<(usize, usize)>>) -> Seq<Option<(int, int)>> {
    c.map_values(|g: Option<(usize, usize)>| match g {
        Some(sp) => Some((sp.0 as int, sp.1 as int)),
        None => None,
    })
}

/// A compiled pattern: the engine's matcher together with the pattern text it
/// was compiled from. Its view is that pattern text.
pub struct Matcher {
    re: regex::bytes::Regex,
    pattern: String,
}

impl View for Matcher {
    type V = Seq<char>;

    closed spec fn view(&self) -> Seq<char> {
        self.pattern@
    }
}

/// Relies on `regex::bytes::Regex::new`: whether a pattern compiles, and the
/// diagnostic when it does not, depend on the pattern text alone.
#[verifier::external_body]
pub(crate) fn regex_new(pattern: &str) -> (r: Result<Matcher, String>)
    ensures
        r is Ok <==> compile_err(pattern@) is None,
        r matches Ok(m) ==> m@ == pattern@,
        r matches Err(e) ==> compile_err(pattern@) matches Some(msg) && e@ == msg,
{
    match regex::bytes::Regex::new(pattern) {
        Ok(re) => Ok(Matcher { re, pattern: pattern.to_string() }),
        Err(e) => Err(e.to_string()),
    }
}

/// Relies on `regex::bytes::Regex::captures_at` and `regex::bytes::Captures`:
/// the engine reports the leftmost match beginning at or after `start` as one
/// optional byte span per capture group; group 0 is the whole match, always
/// present, its span inside `[start, text.len()]`; every reported span lies
/// inside the haystack; the group count equals `Regex::captures_len`. The
/// result depends on the pattern, the haystack and `start` alone.
#[verifier::external_body]
pub(crate) fn captures_at(m: &Matcher, text: &[u8], start: usize) -> (r: Option<Vec<Option<(usize, usize)>>>)
    requires
        start <= text@.len(),
    ensures
        (match r {
            Some(c) => Some(spans_of(c@)),
            None => None::<Seq<Option<(int, int)>>>,
        }) == caps_at(m@, text@, start as int),
        r matches Some(c) ==> {
            &&& c@.len() == caps_len_of(m@)
            &&& c@.len() >= 1
            &&& c@[0] matches Some(sp0) && start <= sp0.0 <= sp0.1 <= text@.len()
            &&& forall|i: int| 0 <= i < c@.len() ==> (#[trigger] c@[i] matches Some(sp) ==> sp.0 <= sp.1 <= text@.len())
        },
{
    m.re.captures_at(text, start).map(|cap| {
        (0..cap.len()).map(|i| cap.get(i).map(|g| (g.start(), g.end()))).collect()
    })
}

/// Relies on `regex::bytes::Regex::captures_len`: the number of capture
/// groups in the pattern, the implicit whole-match group included; always at
/// least 1 and a function of the pattern alone.
#[verifier::external_body]
pub(crate) fn captures_len(m: &Matcher) -> (n: usize)
    ensures
        n as nat == caps_len_of(m@),
        n >= 1,
{
    m.re.captures_len()
}

} // verus!
