//! The identifiers met while normalizing, which give placeholders their
//! positional indices.
use vstd::prelude::*;

use crate::node::PlaceholderKind;
use crate::reindex::{canonical_index, lemma_canonical_index, record, Seen};
use crate::text::str_eq;

verus! {

/// The identifiers met so far, per placeholder kind, in first-seen order.
pub type Names = Seen<Seq<char>>;

/// The index that an identifier of the given kind receives, and the names
/// met once it has been: the position of its first occurrence among the
/// names of that kind, or the next free position when it is new. Each kind
/// counts from zero on its own.
pub open spec fn name_slot(c: Names, name: Seq<char>, k: PlaceholderKind) -> (nat, Names) {
    (canonical_index(c.of(k), name), c.with(k, record(c.of(k), name)))
}

/// The state of a normalization: the identifiers met so far, per kind.
pub struct NormalizationContext {
    vars: Vec<String>,
    fns: Vec<String>,
    types: Vec<String>,
}

/// The characters of a sequence of strings.
pub open spec fn texts(s: Seq<String>) -> Seq<Seq<char>> {
    s.map_values(|x: String| x@)
}

impl View for NormalizationContext {
    type V = Names;

    closed spec fn view(&self) -> Names {
        Seen { vars: texts(self.vars@), fns: texts(self.fns@), types: texts(self.types@) }
    }
}

/// The first position of `name` in `list`, if any.
fn position(list: &Vec<String>, name: &str) -> (r: Option<usize>)
    ensures
        match r {
            Some(j) => texts(list@).contains(name@) && j == canonical_index(texts(list@), name@),
            None => !texts(list@).contains(name@) && list@.len() == canonical_index(
                texts(list@),
                name@,
            ),
        },
{
    let ghost s = texts(list@);
    let n = list.len();
    for j in 0..n
        invariant
            n == list@.len(),
            s == texts(list@),
            forall|m: int| 0 <= m < j ==> s[m] != name@,
    {
        if str_eq(list[j].as_str(), name) {
            proof {
                assert(s[j as int] == name@);
                lemma_canonical_index(s, name@, j as int);
            }
            return Some(j);
        }
    }
    proof {
        lemma_canonical_index(s, name@, n as int);
    }
    None
}

impl NormalizationContext {
    /// A context in which no identifier has been met.
    pub fn new() -> (r: NormalizationContext)
        ensures
            r@ == Seen::<Seq<char>>::empty(),
    {
        let r = NormalizationContext { vars: Vec::new(), fns: Vec::new(), types: Vec::new() };
        assert(r@.vars =~= Seq::<Seq<char>>::empty());
        assert(r@.fns =~= Seq::<Seq<char>>::empty());
        assert(r@.types =~= Seq::<Seq<char>>::empty());
        r
    }

    fn list_of(&self, k: PlaceholderKind) -> (r: &Vec<String>)
        ensures
            texts(r@) == self@.of(k),
    {
        match k {
            PlaceholderKind::Variable => &self.vars,
            PlaceholderKind::Function => &self.fns,
            PlaceholderKind::Type => &self.types,
        }
    }

    fn list(&mut self, k: PlaceholderKind) -> (r: &mut Vec<String>)
        ensures
            texts(r@) == old(self)@.of(k),
            final(self)@ == old(self)@.with(k, texts(final(r)@)),
    {
        match k {
            PlaceholderKind::Variable => &mut self.vars,
            PlaceholderKind::Function => &mut self.fns,
            PlaceholderKind::Type => &mut self.types,
        }
    }

    /// The positional index of an identifier of the given kind: the same
    /// identifier always receives the same index, and a new one the next.
    pub fn placeholder(&mut self, name: &str, kind: PlaceholderKind) -> (r: usize)
        ensures
            (r as nat, final(self)@) == name_slot(old(self)@, name@, kind),
    {
        let ghost s = self@.of(kind);
        match position(self.list_of(kind), name) {
            Some(j) => {
                proof {
                    assert(self@.with(kind, s) == self@);
                }
                j
            },
            None => {
                let n = self.list_of(kind).len();
                let list = self.list(kind);
                list.push(name.to_string());
                proof {
                    assert(texts(list@) =~= s.push(name@));
                }
                n
            },
        }
    }
}

} // verus!
