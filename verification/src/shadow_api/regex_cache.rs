//! Compiled patterns, each compiled once and kept by the text of the pattern.

use vstd::prelude::*;
use vstd::string::*;
use regex::Regex;
use crate::shadow_api::shadow_map::ShadowMap;

verus! {

#[verifier::external_type_specification]
#[verifier::external_body]
pub struct ExRegex(Regex);

/// What compiling a pattern gives: the compiled pattern, or for a pattern
/// that does not compile, the text of the error.
pub uninterp spec fn compiled(pattern: Seq<char>) -> Result<Regex, Seq<char>>;

/// The text that a compiled pattern gives for `text` when each match is
/// replaced by `replacement`.
pub uninterp spec fn replaced_by(re: Regex, text: Seq<char>, replacement: Seq<char>) -> Seq<char>;

/// The text of the error for a pattern that does not compile; `None` for a
/// pattern that compiles.
pub open spec fn pattern_fault(pattern: Seq<char>) -> Option<Seq<char>> {
    match compiled(pattern) {
        Ok(_) => None,
        Err(message) => Some(message),
    }
}

/// The text that the pattern `pattern`, once compiled, gives for `text` when
/// each match is replaced by `replacement`.
pub open spec fn replaced(pattern: Seq<char>, text: Seq<char>, replacement: Seq<char>) -> Seq<char> {
    replaced_by(compiled(pattern)->Ok_0, text, replacement)
}

/// Calls `Regex::new`, which compiles a pattern or returns an error for a
/// pattern that is invalid or too big; the error is handed out as its text.
/// What comes out depends on the pattern alone.
#[verifier::external_body]
fn compile(pattern: &str) -> (r: Result<Regex, String>)
    ensures
        match r {
            Ok(re) => compiled(pattern@) == Ok::<Regex, Seq<char>>(re),
            Err(message) => compiled(pattern@) == Err::<Regex, Seq<char>>(message@),
        },
{
    match Regex::new(pattern) {
        Ok(re) => Ok(re),
        Err(e) => Err(e.to_string()),
    }
}

/// Calls `Regex::replace_all`, which replaces every match in `text`, none
/// overlapping another, by `replacement`, in which `$` refers to what the
/// groups of the pattern took; a text without a match comes back as it is.
#[verifier::external_body]
fn replace_all(re: &Regex, text: &str, replacement: &str) -> (out: String)
    ensures
        out@ == replaced_by(*re, text@, replacement@),
{
    re.replace_all(text, replacement).into_owned()
}

/// The patterns that were compiled so far, each with its compiled form.
#[derive(Debug)]
pub struct RegexCache {
    compiled: ShadowMap<Regex>,
}

impl RegexCache {
    /// Each pattern of the cache stands with what compiling it gives.
    pub closed spec fn wf(&self) -> bool {
        &&& self.compiled.wf()
        &&& forall|i: int|
            0 <= i < self.compiled.items@.len() ==> compiled(#[trigger] self.compiled.keys()[i])
                == Ok::<Regex, Seq<char>>(self.compiled.items@[i])
    }

    /// The patterns of the cache, in the order in which they were compiled.
    pub closed spec fn patterns(&self) -> Seq<Seq<char>> {
        self.compiled.keys()
    }

    /// A cache without patterns.
    pub fn new() -> (cache: RegexCache)
        ensures
            cache.wf(),
            cache.patterns() == Seq::<Seq<char>>::empty(),
    {
        let cache = RegexCache { compiled: ShadowMap::new() };
        assert(cache.patterns() =~= Seq::<Seq<char>>::empty());
        cache
    }

    /// The number of patterns in the cache.
    pub fn len(&self) -> (n: usize)
        ensures
            n == self.patterns().len(),
    {
        self.compiled.len()
    }

    /// Replaces every match of `pattern` in `text` by `replacement`. The
    /// pattern is compiled at its first use and kept. A pattern that does not
    /// compile gives the text of the error, and the cache stays as it is.
    pub fn replace_all(&mut self, pattern: &str, text: &str, replacement: &str) -> (r: Result<
        String,
        String,
    >)
        requires
            old(self).wf(),
        ensures
            final(self).wf(),
            match pattern_fault(pattern@) {
                None => {
                    &&& r is Ok
                    &&& r->Ok_0@ == replaced(pattern@, text@, replacement@)
                    &&& final(self).patterns() == if old(self).patterns().contains(pattern@) {
                        old(self).patterns()
                    } else {
                        old(self).patterns().push(pattern@)
                    }
                },
                Some(fault) => {
                    &&& r is Err
                    &&& r->Err_0@ == fault
                    &&& final(self).patterns() == old(self).patterns()
                },
            },
    {
        match self.compiled.find(pattern) {
            Some(i) => {
                let out = replace_all(self.compiled.item(i), text, replacement);
                Ok(out)
            },
            None => {
                match compile(pattern) {
                    Ok(re) => {
                        let out = replace_all(&re, text, replacement);
                        let ghost before = self.compiled;
                        self.compiled.insert(String::from_str(pattern), re);
                        proof {
                            assert forall|i: int|
                                0 <= i < self.compiled.items@.len() implies compiled(
                                #[trigger] self.compiled.keys()[i],
                            ) == Ok::<Regex, Seq<char>>(self.compiled.items@[i]) by {
                                if i < before.items@.len() {
                                    assert(self.compiled.keys()[i] == before.keys()[i]);
                                }
                            }
                        }
                        Ok(out)
                    },
                    Err(message) => Err(message),
                }
            },
        }
    }
}

}
