use crate::category::CharacterCategory;
use std::collections::HashMap;
use vstd::prelude::*;

verus! {

broadcast use vstd::std_specs::hash::group_hash_axioms;

/// The assignments of one layer, keyed by the character itself.
pub open spec fn layer_view(m: Map<u32, CharacterCategory>) -> Map<char, CharacterCategory> {
    Map::new(|c: char| m.contains_key(c as u32), |c: char| m[c as u32])
}

/// The category that a stack of layers gives to `c`: the innermost layer (the
/// last) that assigns `c` decides; where none does, `c` is `Invalid`.
pub open spec fn category_of(layers: Seq<Map<char, CharacterCategory>>, c: char) -> CharacterCategory
    decreases layers.len(),
{
    if layers.len() == 0 {
        CharacterCategory::Invalid
    } else if layers.last().contains_key(c) {
        layers.last()[c]
    } else {
        category_of(layers.drop_last(), c)
    }
}

/// The stack of layers after `c` is assigned `k` in the innermost one.
pub open spec fn assign(
    layers: Seq<Map<char, CharacterCategory>>,
    c: char,
    k: CharacterCategory,
) -> Seq<Map<char, CharacterCategory>> {
    layers.update(layers.len() - 1, layers.last().insert(c, k))
}

/// A character that no layer assigns is `Invalid`; in particular every
/// character is `Invalid` in a freshly created scope.
pub proof fn lemma_unassigned_is_invalid(layers: Seq<Map<char, CharacterCategory>>, c: char)
    requires
        forall|i: int| 0 <= i < layers.len() ==> !(#[trigger] layers[i]).contains_key(c),
    ensures
        category_of(layers, c) == CharacterCategory::Invalid,
    decreases layers.len(),
{
    if layers.len() > 0 {
        assert(!layers[layers.len() - 1].contains_key(c));
        let rest = layers.drop_last();
        assert forall|i: int| 0 <= i < rest.len() implies !(#[trigger] rest[i]).contains_key(c) by {
            assert(rest[i] == layers[i]);
        }
        lemma_unassigned_is_invalid(rest, c);
    }
}

/// After `c` is assigned `k` in the innermost layer, `c` has category `k`.
pub proof fn lemma_get_after_set(
    layers: Seq<Map<char, CharacterCategory>>,
    c: char,
    k: CharacterCategory,
)
    requires
        layers.len() > 0,
    ensures
        category_of(assign(layers, c, k), c) == k,
{
    assert(assign(layers, c, k).last() == layers.last().insert(c, k));
}

/// Assigning in a child scope leaves the parent untouched: with `c` assigned
/// `a` in a scope and `b` in a child of it, `c` is `b` in the child, and
/// leaving the child gives back exactly the parent's layers, where `c` is
/// still `a`.
pub proof fn lemma_child_isolation(
    layers: Seq<Map<char, CharacterCategory>>,
    c: char,
    a: CharacterCategory,
    b: CharacterCategory,
)
    requires
        layers.len() > 0,
    ensures
        ({
            let parent = assign(layers, c, a);
            let child = assign(parent.push(Map::empty()), c, b);
            &&& category_of(child, c) == b
            &&& child.drop_last() == parent
            &&& category_of(child.drop_last(), c) == a
        }),
{
    let parent = assign(layers, c, a);
    let child = assign(parent.push(Map::empty()), c, b);
    lemma_get_after_set(layers, c, a);
    lemma_get_after_set(parent.push(Map::empty()), c, b);
    assert(child.drop_last() =~= parent);
}

/// A character that the innermost layers leave alone takes its category from
/// the nearest enclosing layer that assigns it.
pub proof fn lemma_fallback(layers: Seq<Map<char, CharacterCategory>>, c: char, i: int)
    requires
        0 <= i < layers.len(),
        layers[i].contains_key(c),
        forall|j: int| i < j < layers.len() ==> !(#[trigger] layers[j]).contains_key(c),
    ensures
        category_of(layers, c) == layers[i][c],
    decreases layers.len(),
{
    if i < layers.len() - 1 {
        assert(!layers[layers.len() - 1].contains_key(c));
        let rest = layers.drop_last();
        assert forall|j: int| i < j < rest.len() implies !(#[trigger] rest[j]).contains_key(c) by {
            assert(rest[j] == layers[j]);
        }
        lemma_fallback(rest, c, i);
    }
}

/// A scope of category assignments: one layer of its own, over the scope that
/// encloses it, if any.
pub struct CategoryMap {
    pub parent: Option<Box<CategoryMap>>,
    pub map: HashMap<u32, CharacterCategory>,
}

impl CategoryMap {
    /// The layers of this scope, outermost first; the last is the scope's own.
    pub open spec fn layers(&self) -> Seq<Map<char, CharacterCategory>>
        decreases self,
    {
        match &self.parent {
            None => seq![layer_view(self.map@)],
            Some(p) => p.layers().push(layer_view(self.map@)),
        }
    }

    /// A root scope: one empty layer and nothing around it.
    pub fn new() -> (r: Self)
        ensures
            r.parent is None,
            r.map@ == Map::<u32, CharacterCategory>::empty(),
            r.layers() == seq![Map::<char, CharacterCategory>::empty()],
    {
        let r = CategoryMap { parent: None, map: HashMap::new() };
        assert(layer_view(r.map@) =~= Map::empty());
        r
    }

    /// Enters a nested scope: a new empty layer over this one.
    pub fn child(self) -> (r: Self)
        ensures
            r.parent == Some(Box::new(self)),
            r.map@ == Map::<u32, CharacterCategory>::empty(),
            r.layers() == self.layers().push(Map::empty()),
    {
        let r = CategoryMap { parent: Some(Box::new(self)), map: HashMap::new() };
        assert(layer_view(r.map@) =~= Map::empty());
        r
    }

    /// Leaves this scope: its layer and every assignment made in it are dropped
    /// and the enclosing scope comes back as it was. A root scope, which has
    /// nothing around it, is handed back unchanged.
    pub fn leave_child(self) -> (r: Self)
        ensures
            self.parent is None ==> r == self,
            self.parent is Some ==> self.parent == Some(Box::new(r)),
            self.layers().len() > 1 ==> r.layers() == self.layers().drop_last(),
            self.layers().len() == 1 ==> r.layers() == self.layers(),
    {
        proof {
            self.lemma_layers_nonempty();
        }
        match self.parent {
            Some(p) => {
                proof {
                    assert(self.layers().drop_last() =~= p.layers());
                    p.lemma_layers_nonempty();
                }
                *p
            },
            None => self,
        }
    }

    /// The category of `c` in this scope.
    pub fn get(&self, c: char) -> (r: CharacterCategory)
        ensures
            r == category_of(self.layers(), c),
        decreases self,
    {
        proof {
            self.lemma_layers_nonempty();
        }
        match self.map.get(&(c as u32)) {
            Some(category) => {
                proof {
                    assert(layer_view(self.map@).contains_key(c));
                    assert(layer_view(self.map@)[c] == *category);
                    assert(category_of(self.layers(), c) == *category);
                }
                *category
            },
            None => match &self.parent {
                Some(parent) => {
                    let r = parent.get(c);
                    proof {
                        assert(!layer_view(self.map@).contains_key(c));
                        assert(self.layers().drop_last() =~= parent.layers());
                        assert(category_of(self.layers(), c) == category_of(parent.layers(), c));
                    }
                    r
                },
                None => {
                    proof {
                        assert(!layer_view(self.map@).contains_key(c));
                        assert(self.layers().drop_last() =~= Seq::empty());
                        assert(category_of(Seq::empty(), c) == CharacterCategory::Invalid);
                        assert(category_of(self.layers(), c) == CharacterCategory::Invalid);
                    }
                    CharacterCategory::Invalid
                },
            },
        }
    }

    /// Assigns `category` to `c` in this scope's own layer.
    pub fn set(&mut self, c: char, category: CharacterCategory)
        ensures
            final(self).map@ == old(self).map@.insert(c as u32, category),
            final(self).parent == old(self).parent,
            final(self).layers() == assign(old(self).layers(), c, category),
    {
        self.map.insert(c as u32, category);
        proof {
            assert(self.map@ == old(self).map@.insert(c as u32, category));
            let before = layer_view(old(self).map@).insert(c, category);
            assert forall|d: char| #[trigger] layer_view(self.map@).contains_key(d) == before.contains_key(d)
                && (before.contains_key(d) ==> layer_view(self.map@)[d] == before[d]) by {
                if d != c {
                    vstd::utf8::char_u32_cast(d, d as u32);
                    vstd::utf8::char_u32_cast(c, c as u32);
                }
            }
            assert(layer_view(self.map@) =~= layer_view(old(self).map@).insert(c, category));
            assert(self.layers() =~= assign(old(self).layers(), c, category));
        }
    }

    proof fn lemma_layers_nonempty(&self)
        ensures
            self.layers().len() >= 1,
            self.layers().last() == layer_view(self.map@),
    {
    }
}

} // verus!
