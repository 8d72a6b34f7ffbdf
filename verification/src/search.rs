//! Regular-expression search in the bytes of a message.
//!
//! All searches take no account of case, and `^` and `$` match at the
//! start and the end of each line.

use vstd::prelude::*;
use vstd::slice::slice_subrange;
use crate::error::EmailError;
use crate::fields::str_equal;
use crate::pattern::{
    capture_names,
    captures_at,
    compile,
    is_match,
    names_view,
    patterns_view,
    regex_capture_names,
    regex_captures,
    regex_compiles,
    regex_is_match,
    regex_set_matches,
    set_matches,
    spans_view,
    spans_well_formed,
};

verus! {

/// One match of a capture group: a stretch of the bytes searched.
#[derive(Debug, Clone, Copy)]
pub struct Match<'h> {
    haystack: &'h [u8],
    start: usize,
    end: usize,
}

impl<'h> Match<'h> {
    #[verifier::type_invariant]
    spec fn well_formed(self) -> bool {
        self.start <= self.end <= self.haystack@.len()
    }

    /// Where the match lies: its start and end in the bytes searched.
    pub closed spec fn span(self) -> (int, int) {
        (self.start as int, self.end as int)
    }

    /// The bytes searched.
    pub closed spec fn searched(self) -> Seq<u8> {
        self.haystack@
    }

    /// Where the match starts.
    pub fn start(&self) -> (r: usize)
        ensures
            r == self.span().0,
    {
        self.start
    }

    /// Where the match ends.
    pub fn end(&self) -> (r: usize)
        ensures
            r == self.span().1,
    {
        self.end
    }

    /// The bytes that matched.
    pub fn as_bytes(&self) -> (r: &'h [u8])
        ensures
            r@ == self.searched().subrange(self.span().0, self.span().1),
    {
        proof {
            use_type_invariant(self);
        }
        slice_subrange(self.haystack, self.start, self.end)
    }
}

/// The capture groups of one match of a regular expression.
#[derive(Debug)]
pub struct Captures<'h> {
    haystack: &'h [u8],
    spans: Vec<Option<(usize, usize)>>,
    names: Vec<Option<String>>,
}

impl<'h> Captures<'h> {
    #[verifier::type_invariant]
    spec fn well_formed(self) -> bool {
        &&& self.spans@.len() == self.names@.len()
        &&& forall|i: int|
            0 <= i < self.spans@.len() ==> (#[trigger] self.spans@[i] matches Some(span) ==> span.0
                <= span.1 <= self.haystack@.len())
    }

    /// The bytes searched.
    pub closed spec fn searched(self) -> Seq<u8> {
        self.haystack@
    }

    /// The spans of the groups, group by group; `None` for a group that
    /// took no part in the match.
    pub closed spec fn spans(self) -> Seq<Option<(int, int)>> {
        spans_view(self.spans@)
    }

    /// The names of the groups, group by group; `None` for a group without
    /// a name.
    pub closed spec fn names(self) -> Seq<Option<Seq<char>>> {
        names_view(self.names@)
    }

    /// The number of groups, the whole match among them.
    pub fn len(&self) -> (r: usize)
        ensures
            r == self.spans().len(),
    {
        self.spans.len()
    }

    /// The match of the group at `index`, where there is such a group and
    /// it took part in the match.
    pub fn get(&self, index: usize) -> (r: Option<Match<'h>>)
        ensures
            match r {
                Some(m) => index < self.spans().len() && self.spans()[index as int] == Some(
                    m.span(),
                ) && m.searched() == self.searched(),
                None => index >= self.spans().len() || self.spans()[index as int] is None,
            },
    {
        proof {
            use_type_invariant(self);
        }
        if index >= self.spans.len() {
            return None;
        }
        match self.spans[index] {
            Some(span) => Some(Match { haystack: self.haystack, start: span.0, end: span.1 }),
            None => None,
        }
    }

    /// The match of the first group that bears `name`, where there is such
    /// a group and it took part in the match.
    pub fn name(&self, name: &str) -> (r: Option<Match<'h>>)
        ensures
            match r {
                Some(m) => exists|i: int|
                    is_first_named(self.names(), name@, i) && self.spans()[i] == Some(m.span())
                        && m.searched() == self.searched(),
                None => forall|i: int|
                    is_first_named(self.names(), name@, i) ==> self.spans()[i] is None,
            },
    {
        proof {
            use_type_invariant(self);
        }
        let mut i: usize = 0;
        while i < self.names.len()
            invariant
                i <= self.names@.len(),
                self.names@.len() == self.spans@.len(),
                forall|j: int| 0 <= j < i ==> self.names()[j] != Some(name@),
            decreases self.names@.len() - i,
        {
            let found: bool = match &self.names[i] {
                Some(n) => str_equal(n.as_str(), name),
                None => false,
            };
            if found {
                let r = self.get(i);
                return r;
            }
            i = i + 1;
        }
        None
    }
}

/// Whether `index` is where the first group of the given name stands.
pub open spec fn is_first_named(names: Seq<Option<Seq<char>>>, name: Seq<char>, index: int) -> bool {
    &&& 0 <= index < names.len()
    &&& names[index] == Some(name)
    &&& forall|j: int| 0 <= j < index ==> names[j] != Some(name)
}

/// Which regular expressions of a set matched.
#[derive(Debug)]
pub struct SetMatches {
    matched: Vec<bool>,
}

impl View for SetMatches {
    type V = Seq<bool>;

    closed spec fn view(&self) -> Seq<bool> {
        self.matched@
    }
}

impl SetMatches {
    /// The number of regular expressions in the set.
    pub fn len(&self) -> (r: usize)
        ensures
            r == self@.len(),
    {
        self.matched.len()
    }

    /// Whether the regular expression at `index` matched.
    pub fn matched(&self, index: usize) -> (r: bool)
        ensures
            r == (index < self@.len() && self@[index as int]),
    {
        index < self.matched.len() && self.matched[index]
    }

    /// Whether any regular expression of the set matched.
    pub fn matched_any(&self) -> (r: bool)
        ensures
            r == exists|i: int| 0 <= i < self@.len() && self@[i],
    {
        let mut i: usize = 0;
        while i < self.matched.len()
            invariant
                i <= self@.len(),
                forall|j: int| 0 <= j < i ==> !self@[j],
            decreases self@.len() - i,
        {
            if self.matched[i] {
                return true;
            }
            i = i + 1;
        }
        false
    }

    /// The indices of the regular expressions that matched, in rising
    /// order.
    pub fn indices(&self) -> (r: Vec<usize>)
        ensures
            r@ == indices_of(self@),
    {
        let mut out: Vec<usize> = Vec::new();
        let mut i: usize = 0;
        while i < self.matched.len()
            invariant
                i <= self@.len(),
                out@ == indices_of(self@.take(i as int)),
            decreases self@.len() - i,
        {
            proof {
                assert(self@.take(i + 1).drop_last() == self@.take(i as int));
            }
            if self.matched[i] {
                out.push(i);
            }
            i = i + 1;
        }
        proof {
            assert(self@.take(i as int) == self@);
        }
        out
    }

    /// An iterator over the indices of the regular expressions that
    /// matched, in rising order.
    pub fn into_iter(self) -> (iter: std::vec::IntoIter<usize>)
        ensures
            vstd::std_specs::vec::into_iter_elts(iter) == indices_of(self@),
    {
        let indices = self.indices();
        proof {
            vstd::std_specs::vec::axiom_spec_into_iter(indices);
        }
        indices.into_iter()
    }
}

/// The indices at which a sequence holds `true`, in rising order.
pub open spec fn indices_of(matched: Seq<bool>) -> Seq<usize>
    decreases matched.len(),
{
    if matched.len() == 0 {
        Seq::empty()
    } else if matched.last() {
        indices_of(matched.drop_last()).push((matched.len() - 1) as usize)
    } else {
        indices_of(matched.drop_last())
    }
}

/// The indices are those at which the sequence holds `true`, each once, and
/// they rise.
pub proof fn lemma_indices_of(matched: Seq<bool>)
    requires
        matched.len() <= usize::MAX,
    ensures
        forall|k: int|
            0 <= k < indices_of(matched).len() ==> (#[trigger] indices_of(matched)[k])
                < matched.len() && matched[indices_of(matched)[k] as int],
        forall|k: int, l: int|
            0 <= k < l < indices_of(matched).len() ==> indices_of(matched)[k] < indices_of(
                matched,
            )[l],
        forall|i: int|
            0 <= i < matched.len() && matched[i] ==> indices_of(matched).contains(i as usize),
    decreases matched.len(),
{
    if matched.len() > 0 {
        let earlier = matched.drop_last();
        let before = indices_of(earlier);
        let all = indices_of(matched);
        lemma_indices_of(earlier);
        assert forall|k: int| 0 <= k < all.len() implies (#[trigger] all[k]) < matched.len()
            && matched[all[k] as int] by {}
        assert forall|k: int, l: int| 0 <= k < l < all.len() implies all[k] < all[l] by {}
        assert forall|i: int| 0 <= i < matched.len() && matched[i] implies all.contains(
            i as usize,
        ) by {
            if i < earlier.len() {
                assert(earlier[i]);
                let k = choose|k: int| 0 <= k < before.len() && before[k] == i as usize;
                assert(all[k] == i as usize);
            } else {
                assert(all[all.len() - 1] == i as usize);
            }
        }
    }
}

/// Searches in the bytes of a message with regular expressions.
pub trait EmailRegex {
    /// The bytes that are searched.
    spec fn searched(&self) -> Seq<u8>;

    /// Whether the bytes match a regular expression. Fails where the
    /// regular expression is not valid.
    fn search(&self, regex: &str) -> (r: Result<bool, EmailError>)
        ensures
            r is Ok <==> regex_compiles(regex@, true, true),
            r matches Err(e) ==> e is Regex,
            r matches Ok(found) ==> found == regex_is_match((regex@, true, true), self.searched());

    /// The capture groups of the first match of a regular expression, or
    /// `None` where it does not match. Fails where the regular expression is
    /// not valid.
    fn search_with_captures<'s>(&'s self, regex: &str) -> (r: Result<
        Option<Captures<'s>>,
        EmailError,
    >)
        ensures
            r is Ok <==> regex_compiles(regex@, true, true),
            r matches Err(e) ==> e is Regex,
            r matches Ok(found) ==> match found {
                Some(captures) => captures.searched() == self.searched() && captures.names()
                    == regex_capture_names((regex@, true, true)) && regex_captures(
                    (regex@, true, true),
                    self.searched(),
                    0,
                    captures.names().len() as int,
                ) == Some(captures.spans()),
                None => regex_captures(
                    (regex@, true, true),
                    self.searched(),
                    0,
                    regex_capture_names((regex@, true, true)).len() as int,
                ) is None,
            };

    /// Which regular expressions of a set match in the bytes. Fails where
    /// the set is not valid.
    fn search_set(&self, regex_set: &[&str]) -> (r: Result<SetMatches, EmailError>)
        ensures
            match r {
                Ok(found) => regex_set_matches(
                    patterns_view(regex_set@),
                    true,
                    true,
                    self.searched(),
                ) == Some(found@) && found@.len() == regex_set@.len(),
                Err(e) => e is Regex && regex_set_matches(
                    patterns_view(regex_set@),
                    true,
                    true,
                    self.searched(),
                ) is None,
            };
}

impl EmailRegex for &[u8] {
    open spec fn searched(&self) -> Seq<u8> {
        (*self)@
    }

    fn search(&self, regex: &str) -> (r: Result<bool, EmailError>) {
        match compile(regex, true, true) {
            Ok(re) => Ok(is_match(&re, *self)),
            Err(e) => Err(EmailError::Regex(e)),
        }
    }

    fn search_with_captures<'s>(&'s self, regex: &str) -> (r: Result<
        Option<Captures<'s>>,
        EmailError,
    >) {
        let re = match compile(regex, true, true) {
            Ok(re) => re,
            Err(e) => {
                return Err(EmailError::Regex(e));
            },
        };
        let haystack: &'s [u8] = *self;
        let names = capture_names(&re);
        match captures_at(&re, haystack, 0, names.len()) {
            Some(spans) => {
                proof {
                    assert forall|i: int| 0 <= i < spans@.len() implies (
                    #[trigger] spans@[i] matches Some(span) ==> span.0 <= span.1
                        <= haystack@.len()) by {
                        let _ = spans_view(spans@)[i];
                    }
                }
                Ok(Some(Captures { haystack, spans, names }))
            },
            None => Ok(None),
        }
    }

    fn search_set(&self, regex_set: &[&str]) -> (r: Result<SetMatches, EmailError>) {
        match set_matches(regex_set, true, true, *self) {
            Ok(matched) => Ok(SetMatches { matched }),
            Err(e) => Err(EmailError::Regex(e)),
        }
    }
}

} // verus!
