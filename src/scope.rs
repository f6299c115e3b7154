use crate::ty::{children, refs_below, types_wf, unit_name, SimpleType, SimpleTypeRef, TypeModel};
use vstd::prelude::*;

verus! {

/// The environment that a list of bindings denotes: a later binding of a name hides
/// the earlier ones.
pub open spec fn bindings_map(s: Seq<(String, SimpleTypeRef)>) -> Map<Seq<char>, SimpleTypeRef>
    decreases s.len(),
{
    if s.len() == 0 {
        Map::empty()
    } else {
        bindings_map(s.drop_last()).insert(s.last().0@, s.last().1)
    }
}

proof fn lemma_bindings_found(s: Seq<(String, SimpleTypeRef)>, i: int)
    requires
        0 <= i < s.len(),
        forall|j: int| i < j < s.len() ==> (#[trigger] s[j]).0@ != s[i].0@,
    ensures
        bindings_map(s).dom().contains(s[i].0@),
        bindings_map(s)[s[i].0@] == s[i].1,
    decreases s.len(),
{
    if i < s.len() - 1 {
        let t = s.drop_last();
        assert forall|j: int| i < j < t.len() implies (#[trigger] t[j]).0@ != t[i].0@ by {
            assert(t[j] == s[j]);
        }
        lemma_bindings_found(t, i);
        assert(s[s.len() - 1].0@ != s[i].0@);
    }
}

proof fn lemma_bindings_absent(s: Seq<(String, SimpleTypeRef)>, k: Seq<char>)
    requires
        forall|j: int| 0 <= j < s.len() ==> (#[trigger] s[j]).0@ != k,
    ensures
        !bindings_map(s).dom().contains(k),
    decreases s.len(),
{
    if s.len() > 0 {
        let t = s.drop_last();
        assert forall|j: int| 0 <= j < t.len() implies (#[trigger] t[j]).0@ != k by {
            assert(t[j] == s[j]);
        }
        lemma_bindings_absent(t, k);
    }
}

proof fn lemma_bindings_values(s: Seq<(String, SimpleTypeRef)>, k: Seq<char>)
    requires
        bindings_map(s).dom().contains(k),
    ensures
        exists|i: int| 0 <= i < s.len() && (#[trigger] s[i]).0@ == k && live(s, i),
    decreases s.len(),
{
    let t = s.drop_last();
    if s.last().0@ == k {
        assert(s[s.len() - 1].0@ == k);
        assert(live(s, s.len() - 1));
    } else {
        lemma_bindings_values(t, k);
        let i = choose|i: int| 0 <= i < t.len() && (#[trigger] t[i]).0@ == k && live(t, i);
        assert(s[i] == t[i]);
        assert forall|m: int| i < m < s.len() implies (#[trigger] s[m]).0@ != s[i].0@ by {
            if m < s.len() - 1 {
                assert(s[m] == t[m]);
            }
        }
    }
}

/// The type store and the name environment of one compilation unit.
pub struct Scope {
    types: Vec<SimpleType>,
    names: Vec<(String, SimpleTypeRef)>,
}

impl Scope {
    /// The stored types, by index.
    pub closed spec fn types(&self) -> Seq<TypeModel> {
        self.types@.map_values(|t: SimpleType| t@)
    }

    /// The name environment.
    pub closed spec fn names(&self) -> Map<Seq<char>, SimpleTypeRef> {
        bindings_map(self.names@)
    }

    /// Every name is bound to a stored type, and the store is well formed.
    pub open spec fn wf(&self) -> bool {
        &&& types_wf(self.types())
        &&& forall|k: Seq<char>| #[trigger] self.names().dom().contains(k) ==> self.names()[k].0 < self.types().len()
    }

    pub fn new() -> (r: Scope)
        ensures
            r.types() == seq![TypeModel::Primitive(unit_name())],
            r.names() == Map::<Seq<char>, SimpleTypeRef>::empty(),
            r.wf(),
    {
        let unit = String::from_str("Unit");
        proof {
            reveal_strlit("Unit");
            assert(unit@ =~= unit_name());
        }
        let mut types: Vec<SimpleType> = Vec::new();
        types.push(SimpleType::Primitive(unit));
        let r = Scope { types, names: Vec::new() };
        assert(r.types() =~= seq![TypeModel::Primitive(unit_name())]);
        r
    }

    /// The number of stored types; the next index to be given out.
    pub fn len(&self) -> (r: usize)
        ensures
            r == self.types().len(),
    {
        self.types.len()
    }

    /// Stores a type under a fresh index.
    pub fn put(&mut self, ty: SimpleType) -> (r: SimpleTypeRef)
        ensures
            r.0 == old(self).types().len(),
            final(self).types() == old(self).types().push(ty@),
            final(self).names() == old(self).names(),
            old(self).wf() && refs_below(children(ty@), old(self).types().len()) ==> final(self).wf(),
    {
        let r = SimpleTypeRef(self.types.len());
        self.types.push(ty);
        proof {
            let ts = self.types();
            assert(ts =~= old(self).types().push(ty@));
            if old(self).wf() && refs_below(children(ty@), old(self).types().len()) {
                assert forall|i: int| 0 <= i < ts.len() implies refs_below(children(#[trigger] ts[i]), ts.len()) by {
                    if i < ts.len() - 1 {
                        assert(ts[i] == old(self).types()[i]);
                    }
                }
                assert forall|i: int| 0 <= i < ts.len() && !(ts[i] is Variable) implies refs_below(
                    children(#[trigger] ts[i]),
                    i as nat,
                ) by {
                    if i < ts.len() - 1 {
                        assert(ts[i] == old(self).types()[i]);
                    }
                }
                assert(ts[0] == old(self).types()[0]);
                assert forall|k: Seq<char>| #[trigger] self.names().dom().contains(k) implies self.names()[k].0
                    < ts.len() by {
                    assert(old(self).names().dom().contains(k));
                }
            }
        }
        r
    }

    /// Stores a type under a fresh index and binds `name` to it.
    pub fn assign(&mut self, name: &String, ty: SimpleType) -> (r: SimpleTypeRef)
        ensures
            r.0 == old(self).types().len(),
            final(self).types() == old(self).types().push(ty@),
            final(self).names() == old(self).names().insert(name@, r),
            old(self).wf() && refs_below(children(ty@), old(self).types().len()) ==> final(self).wf(),
    {
        let r = self.put(ty);
        self.assign_alias(name, r);
        r
    }

    /// Binds `name` to an index that is already stored.
    pub fn assign_alias(&mut self, name: &String, ty: SimpleTypeRef)
        ensures
            final(self).types() == old(self).types(),
            final(self).names() == old(self).names().insert(name@, ty),
            old(self).wf() && ty.0 < old(self).types().len() ==> final(self).wf(),
    {
        self.names.push((name.clone(), ty));
        proof {
            assert(self.names@.drop_last() =~= old(self).names@);
        }
    }

    /// The type stored at `ty_ref`, or nothing where the index is out of range.
    pub fn get(&self, ty_ref: SimpleTypeRef) -> (r: Option<&SimpleType>)
        ensures
            r.is_some() == (ty_ref.0 < self.types().len()),
            r.is_some() ==> r.unwrap()@ == self.types()[ty_ref.0 as int],
    {
        if ty_ref.0 < self.types.len() {
            Some(&self.types[ty_ref.0])
        } else {
            None
        }
    }

    /// Mutable access to the type stored at `ty_ref`, or nothing where the index is out of range.
    pub fn get_mut(&mut self, ty_ref: SimpleTypeRef) -> (r: Option<&mut SimpleType>)
        ensures
            final(self).names() == old(self).names(),
            r is Some <==> ty_ref.0 < old(self).types().len(),
            r is None ==> final(self).types() == old(self).types(),
            r is Some ==> {
                &&& (*r.unwrap())@ == old(self).types()[ty_ref.0 as int]
                &&& final(self).types() == old(self).types().update(ty_ref.0 as int, (*final(r.unwrap()))@)
            },
    {
        if ty_ref.0 < self.types.len() {
            Some(&mut self.types[ty_ref.0])
        } else {
            None
        }
    }

    /// Two independent mutable accesses. A slot is absent where its index is out of range,
    /// and both are absent where the two indices are equal, since they would alias.
    pub fn get_disjoint_mut(&mut self, a: SimpleTypeRef, b: SimpleTypeRef) -> (r: (Option<&mut SimpleType>, Option<&mut SimpleType>))
        ensures
            final(self).names() == old(self).names(),
            r.0 is Some <==> (a.0 < old(self).types().len() && a.0 != b.0),
            r.1 is Some <==> (b.0 < old(self).types().len() && a.0 != b.0),
            r.0 is Some ==> (*r.0.unwrap())@ == old(self).types()[a.0 as int],
            r.1 is Some ==> (*r.1.unwrap())@ == old(self).types()[b.0 as int],
            final(self).types() == ({
                let t0 = old(self).types();
                let t1 = if r.0 is Some {
                    t0.update(a.0 as int, (*final(r.0.unwrap()))@)
                } else {
                    t0
                };
                if r.1 is Some {
                    t1.update(b.0 as int, (*final(r.1.unwrap()))@)
                } else {
                    t1
                }
            }),
    {
        let len = self.types.len();
        if a.0 == b.0 {
            (None, None)
        } else if a.0 < len && b.0 < len {
            if a.0 < b.0 {
                let (lo, hi) = self.types.as_mut_slice().split_at_mut(b.0);
                let (_, mid) = lo.split_at_mut(a.0);
                (mid.first_mut(), hi.first_mut())
            } else {
                let (lo, hi) = self.types.as_mut_slice().split_at_mut(a.0);
                let (_, mid) = lo.split_at_mut(b.0);
                (hi.first_mut(), mid.first_mut())
            }
        } else if a.0 < len {
            (self.get_mut(a), None)
        } else if b.0 < len {
            (None, self.get_mut(b))
        } else {
            (None, None)
        }
    }

    /// Replaces the type stored at `ty_ref`.
    pub fn set(&mut self, ty_ref: SimpleTypeRef, ty: SimpleType)
        requires
            ty_ref.0 < old(self).types().len(),
        ensures
            final(self).types() == old(self).types().update(ty_ref.0 as int, ty@),
            final(self).names() == old(self).names(),
    {
        self.types.set(ty_ref.0, ty);
        proof {
            assert(self.types() =~= old(self).types().update(ty_ref.0 as int, ty@));
        }
    }

    /// The type bound to `name`, if any.
    pub fn get_ref(&self, name: &String) -> (r: Option<SimpleTypeRef>)
        ensures
            r == (if self.names().dom().contains(name@) {
                Some(self.names()[name@])
            } else {
                None::<SimpleTypeRef>
            }),
    {
        let mut i = self.names.len();
        while i > 0
            invariant
                i <= self.names@.len(),
                forall|j: int| i <= j < self.names@.len() ==> (#[trigger] self.names@[j]).0@ != name@,
            decreases i,
        {
            i = i - 1;
            if self.names[i].0 == *name {
                proof {
                    lemma_bindings_found(self.names@, i as int);
                }
                return Some(self.names[i].1);
            }
        }
        proof {
            lemma_bindings_absent(self.names@, name@);
        }
        None
    }

    /// Every current binding, each name once, in the order of the bindings that hold.
    pub fn entries(&self) -> (r: Vec<(String, SimpleTypeRef)>)
        ensures
            forall|i: int| 0 <= i < r@.len() ==> {
                &&& self.names().dom().contains((#[trigger] r@[i]).0@)
                &&& self.names()[r@[i].0@] == r@[i].1
            },
            forall|k: Seq<char>| #[trigger] self.names().dom().contains(k) ==>
                exists|i: int| 0 <= i < r@.len() && (#[trigger] r@[i]).0@ == k,
            forall|i: int, j: int| 0 <= i < j < r@.len() ==> (#[trigger] r@[i]).0@ != (#[trigger] r@[j]).0@,
    {
        let ghost s = self.names@;
        let mut r: Vec<(String, SimpleTypeRef)> = Vec::new();
        let ghost mut src: Seq<int> = Seq::empty();
        let n = self.names.len();
        let mut i: usize = 0;
        while i < n
            invariant
                s == self.names@,
                n == s.len(),
                i <= n,
                src.len() == r@.len(),
                forall|a: int| 0 <= a < src.len() ==> {
                    &&& 0 <= #[trigger] src[a] < i
                    &&& live(s, src[a])
                    &&& r@[a].0@ == s[src[a]].0@
                    &&& r@[a].1 == s[src[a]].1
                },
                forall|a: int, b: int| 0 <= a < b < src.len() ==> #[trigger] src[a] < #[trigger] src[b],
                forall|j: int| 0 <= j < i && live(s, j) ==> exists|a: int| 0 <= a < src.len() && #[trigger] src[a] == j,
            decreases n - i,
        {
            let mut later = false;
            let mut m: usize = i + 1;
            while m < n
                invariant
                    s == self.names@,
                    n == s.len(),
                    i < n,
                    i + 1 <= m <= n,
                    !later == (forall|x: int| i < x < m ==> (#[trigger] s[x]).0@ != s[i as int].0@),
                decreases n - m,
            {
                if self.names[m].0 == self.names[i].0 {
                    later = true;
                }
                m = m + 1;
            }
            let ghost old_src = src;
            if !later {
                r.push((self.names[i].0.clone(), self.names[i].1));
                proof {
                    src = src.push(i as int);
                }
            }
            proof {
                assert forall|j: int| 0 <= j < i + 1 && live(s, j) implies exists|a: int|
                    0 <= a < src.len() && #[trigger] src[a] == j by {
                    if j == i {
                        assert(src[src.len() - 1] == j);
                    } else {
                        let a = choose|a: int| 0 <= a < old_src.len() && #[trigger] old_src[a] == j;
                        assert(src[a] == old_src[a]);
                    }
                }
            }
            i = i + 1;
        }
        proof {
            assert forall|a: int| 0 <= a < r@.len() implies {
                &&& self.names().dom().contains((#[trigger] r@[a]).0@)
                &&& self.names()[r@[a].0@] == r@[a].1
            } by {
                assert(0 <= src[a] < s.len());
                lemma_bindings_found(s, src[a]);
            }
            assert forall|k: Seq<char>| #[trigger] self.names().dom().contains(k) implies
                exists|a: int| 0 <= a < r@.len() && (#[trigger] r@[a]).0@ == k by {
                lemma_bindings_values(s, k);
                let j = choose|j: int| 0 <= j < s.len() && (#[trigger] s[j]).0@ == k && live(s, j);
                let a = choose|a: int| 0 <= a < src.len() && #[trigger] src[a] == j;
                assert(r@[a].0@ == k);
            }
            assert forall|a: int, b: int| 0 <= a < b < r@.len() implies (#[trigger] r@[a]).0@ != (#[trigger] r@[b]).0@ by {
                assert(src[a] < src[b]);
                assert(live(s, src[a]));
                assert(s[src[b]].0@ != s[src[a]].0@);
            }
        }
        r
    }
}

/// No later binding has the same name as binding `j`.
spec fn live(s: Seq<(String, SimpleTypeRef)>, j: int) -> bool {
    forall|m: int| j < m < s.len() ==> (#[trigger] s[m]).0@ != s[j].0@
}

} // verus!
