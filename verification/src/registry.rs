//! The append-only log of extracted domain names.

use vstd::prelude::*;

verus! {

/// An ordered, growable sequence of domain names. Names are only ever
/// appended, in the order the capture loop observed them; nothing is removed
/// or changed in place. The capture side owns the single writer; consumers
/// read through [`DomainRegistry::snapshot`].
pub struct DomainRegistry {
    entries: Vec<String>,
}

impl View for DomainRegistry {
    type V = Seq<Seq<char>>;

    closed spec fn view(&self) -> Seq<Seq<char>> {
        self.entries.deep_view()
    }
}

impl DomainRegistry {
    /// A registry holding no names yet.
    pub fn new() -> (r: DomainRegistry)
        ensures
            r@ == Seq::<Seq<char>>::empty(),
    {
        let entries: Vec<String> = Vec::new();
        proof {
            assert(entries.deep_view() =~= Seq::<Seq<char>>::empty());
        }
        DomainRegistry { entries }
    }

    /// Appends one name at the end; everything already in the registry stays
    /// where it was.
    pub fn append(&mut self, name: String)
        ensures
            final(self)@ == old(self)@.push(name@),
    {
        let ghost before = self.entries.deep_view();
        let ghost name_view = name@;
        self.entries.push(name);
        proof {
            assert(self.entries.deep_view() =~= before.push(name_view));
        }
    }

    /// A copy of the current contents, in append order.
    pub fn snapshot(&self) -> (r: Vec<String>)
        ensures
            r.deep_view() == self@,
    {
        let r = self.entries.clone();
        proof {
            assert(r.deep_view() =~= self.entries.deep_view());
        }
        r
    }

    /// How many names have been appended so far.
    pub fn len(&self) -> (n: usize)
        ensures
            n == self@.len(),
    {
        proof {
            assert(self.entries.deep_view().len() == self.entries@.len());
        }
        self.entries.len()
    }
}

/// Append order is preserved: if a registry holding `base` receives a run of
/// appends `names`, then what any observer saw after the first `k` of them is
/// a prefix of what the registry holds after all of them — no name is
/// dropped, duplicated or reordered by later appends.
pub proof fn lemma_append_order(base: Seq<Seq<char>>, names: Seq<Seq<char>>, k: int)
    requires
        0 <= k <= names.len(),
    ensures
        (base + names.take(k)).is_prefix_of(base + names),
{
    assert((base + names.take(k)) =~= (base + names).subrange(0, base.len() + k));
}

} // verus!
