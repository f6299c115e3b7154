use vstd::prelude::*;

verus! {

/// A type of the serialized program form: a function, a product, or a named type variable.
#[derive(Debug, PartialEq, Eq)]
pub enum LumoType {
    Fn(LumoFnType),
    Product(LumoProductType),
    TypeVar(String),
}

#[derive(Debug, PartialEq, Eq)]
pub struct LumoFnType {
    pub parameter_types: Vec<LumoType>,
    pub return_type: Box<LumoType>,
}

/// A product: positional fields, or named fields. Named fields are kept in order; a
/// well-formed product names each field once (`product_wf`), and `==` compares in order.
#[derive(Debug, PartialEq, Eq)]
pub enum LumoProductType {
    Index(Vec<LumoType>),
    Named(Vec<(String, LumoType)>),
}


/// The field names are pairwise distinct.
pub open spec fn names_distinct(fs: Seq<(String, LumoType)>) -> bool {
    forall|i: int, j: int| 0 <= i < j < fs.len() ==> (#[trigger] fs[i]).0@ != (#[trigger] fs[j]).0@
}

/// Every named product inside `t` names each field once.
pub open spec fn type_wf(t: LumoType) -> bool
    decreases t,
{
    match t {
        LumoType::TypeVar(_) => true,
        LumoType::Fn(f) => fn_wf(f),
        LumoType::Product(p) => product_wf(p),
    }
}

pub open spec fn fn_wf(f: LumoFnType) -> bool
    decreases f,
{
    &&& forall|i: int| 0 <= i < f.parameter_types@.len() ==> type_wf(#[trigger] f.parameter_types@[i])
    &&& type_wf(*f.return_type)
}

pub open spec fn product_wf(p: LumoProductType) -> bool
    decreases p,
{
    match p {
        LumoProductType::Index(ts) => forall|i: int| 0 <= i < ts@.len() ==> type_wf(#[trigger] ts@[i]),
        LumoProductType::Named(fs) => names_distinct(fs@) && forall|i: int| 0 <= i < fs@.len() ==> type_wf(#[trigger] fs@[i].1),
    }
}

/// `a` and `b` are the same type, names compared by their characters.
pub open spec fn same_type(a: LumoType, b: LumoType) -> bool
    decreases a,
{
    match a {
        LumoType::TypeVar(s) => b is TypeVar && b->TypeVar_0@ == s@,
        LumoType::Fn(f) => b is Fn && same_fn(f, b->Fn_0),
        LumoType::Product(p) => b is Product && same_product(p, b->Product_0),
    }
}

pub open spec fn same_fn(a: LumoFnType, b: LumoFnType) -> bool
    decreases a,
{
    &&& b.parameter_types@.len() == a.parameter_types@.len()
    &&& forall|i: int|
        0 <= i < a.parameter_types@.len() ==> same_type(a.parameter_types@[i], #[trigger] b.parameter_types@[i])
    &&& same_type(*a.return_type, *b.return_type)
}

pub open spec fn same_product(a: LumoProductType, b: LumoProductType) -> bool
    decreases a,
{
    match a {
        LumoProductType::Index(ts) => b is Index && b->Index_0@.len() == ts@.len() && forall|i: int|
            0 <= i < ts@.len() ==> same_type(ts@[i], #[trigger] b->Index_0@[i]),
        LumoProductType::Named(fs) => b is Named && b->Named_0@.len() == fs@.len() && forall|i: int|
            0 <= i < fs@.len() ==> (#[trigger] b->Named_0@[i]).0@ == fs@[i].0@ && same_type(fs@[i].1, b->Named_0@[i].1),
    }
}

/// `r` is `t` with every type variable named `name` replaced by `ty`.
pub open spec fn substituted(t: LumoType, name: Seq<char>, ty: LumoType, r: LumoType) -> bool
    decreases t,
{
    match t {
        LumoType::TypeVar(s) => if s@ == name {
            same_type(ty, r)
        } else {
            r is TypeVar && r->TypeVar_0@ == s@
        },
        LumoType::Fn(f) => r is Fn && substituted_fn(f, name, ty, r->Fn_0),
        LumoType::Product(p) => r is Product && substituted_product(p, name, ty, r->Product_0),
    }
}

pub open spec fn substituted_fn(f: LumoFnType, name: Seq<char>, ty: LumoType, r: LumoFnType) -> bool
    decreases f,
{
    &&& r.parameter_types@.len() == f.parameter_types@.len()
    &&& forall|i: int|
        0 <= i < f.parameter_types@.len() ==> substituted(f.parameter_types@[i], name, ty, #[trigger] r.parameter_types@[i])
    &&& substituted(*f.return_type, name, ty, *r.return_type)
}

pub open spec fn substituted_product(p: LumoProductType, name: Seq<char>, ty: LumoType, r: LumoProductType) -> bool
    decreases p,
{
    match p {
        LumoProductType::Index(ts) => r is Index && r->Index_0@.len() == ts@.len() && forall|i: int|
            0 <= i < ts@.len() ==> substituted(ts@[i], name, ty, #[trigger] r->Index_0@[i]),
        LumoProductType::Named(fs) => r is Named && r->Named_0@.len() == fs@.len() && forall|i: int|
            0 <= i < fs@.len() ==> (#[trigger] r->Named_0@[i]).0@ == fs@[i].0@ && substituted(fs@[i].1, name, ty, r->Named_0@[i].1),
    }
}

impl LumoType {
    /// A copy of this type.
    pub fn duplicate(&self) -> (r: LumoType)
        ensures
            same_type(*self, r),
            type_wf(*self) ==> type_wf(r),
        decreases *self,
    {
        match self {
            LumoType::TypeVar(s) => LumoType::TypeVar(s.clone()),
            LumoType::Fn(f) => LumoType::Fn(f.duplicate()),
            LumoType::Product(p) => LumoType::Product(p.duplicate()),
        }
    }

    /// Replaces every type variable named `name` by `ty`.
    pub fn substitute(&self, name: &str, ty: &LumoType) -> (r: LumoType)
        ensures
            substituted(*self, name@, *ty, r),
            type_wf(*self) && type_wf(*ty) ==> type_wf(r),
        decreases *self,
    {
        match self {
            LumoType::Fn(fn_type) => LumoType::Fn(fn_type.substitute(name, ty)),
            LumoType::Product(prod_type) => LumoType::Product(prod_type.substitute(name, ty)),
            LumoType::TypeVar(s) => {
                let target = String::from_str(name);
                if *s == target {
                    ty.duplicate()
                } else {
                    LumoType::TypeVar(s.clone())
                }
            },
        }
    }
}

impl LumoFnType {
    pub fn duplicate(&self) -> (r: LumoFnType)
        ensures
            same_fn(*self, r),
            fn_wf(*self) ==> fn_wf(r),
        decreases *self,
    {
        let mut parameter_types: Vec<LumoType> = Vec::new();
        let mut i: usize = 0;
        while i < self.parameter_types.len()
            invariant
                i <= self.parameter_types@.len(),
                parameter_types@.len() == i,
                forall|k: int| 0 <= k < i ==> same_type(self.parameter_types@[k], #[trigger] parameter_types@[k]),
                fn_wf(*self) ==> forall|k: int| 0 <= k < i ==> type_wf(#[trigger] parameter_types@[k]),
            decreases self.parameter_types@.len() - i,
        {
            proof {
                assert(decreases_to!(self.parameter_types => self.parameter_types@[i as int]));
            }
            parameter_types.push(self.parameter_types[i].duplicate());
            i = i + 1;
        }
        LumoFnType { parameter_types, return_type: Box::new(self.return_type.duplicate()) }
    }

    /// Replaces every type variable named `name` by `ty`.
    pub fn substitute(&self, name: &str, ty: &LumoType) -> (r: LumoFnType)
        ensures
            substituted_fn(*self, name@, *ty, r),
            fn_wf(*self) && type_wf(*ty) ==> fn_wf(r),
        decreases *self,
    {
        let mut parameter_types: Vec<LumoType> = Vec::new();
        let mut i: usize = 0;
        while i < self.parameter_types.len()
            invariant
                i <= self.parameter_types@.len(),
                parameter_types@.len() == i,
                forall|k: int| 0 <= k < i ==> substituted(self.parameter_types@[k], name@, *ty, #[trigger] parameter_types@[k]),
                fn_wf(*self) && type_wf(*ty) ==> forall|k: int| 0 <= k < i ==> type_wf(#[trigger] parameter_types@[k]),
            decreases self.parameter_types@.len() - i,
        {
            proof {
                assert(decreases_to!(self.parameter_types => self.parameter_types@[i as int]));
            }
            parameter_types.push(self.parameter_types[i].substitute(name, ty));
            i = i + 1;
        }
        let return_type = Box::new(self.return_type.substitute(name, ty));
        LumoFnType { parameter_types, return_type }
    }
}

impl LumoProductType {
    pub fn duplicate(&self) -> (r: LumoProductType)
        ensures
            same_product(*self, r),
            product_wf(*self) ==> product_wf(r),
        decreases *self,
    {
        match self {
            LumoProductType::Index(types) => {
                let mut out: Vec<LumoType> = Vec::new();
                let mut i: usize = 0;
                while i < types.len()
                    invariant
                        i <= types@.len(),
                        *self == LumoProductType::Index(*types),
                        out@.len() == i,
                        forall|k: int| 0 <= k < i ==> same_type(types@[k], #[trigger] out@[k]),
                        product_wf(*self) ==> forall|k: int| 0 <= k < i ==> type_wf(#[trigger] out@[k]),
                    decreases types@.len() - i,
                {
                    proof {
                        assert(decreases_to!(*self => (*self)->Index_0));
                        assert(decreases_to!(*types => types@[i as int]));
                    }
                    out.push(types[i].duplicate());
                    i = i + 1;
                }
                LumoProductType::Index(out)
            },
            LumoProductType::Named(fields) => {
                let mut out: Vec<(String, LumoType)> = Vec::new();
                let mut i: usize = 0;
                while i < fields.len()
                    invariant
                        i <= fields@.len(),
                        *self == LumoProductType::Named(*fields),
                        out@.len() == i,
                        forall|k: int| 0 <= k < i ==> (#[trigger] out@[k]).0@ == fields@[k].0@ && same_type(fields@[k].1, out@[k].1),
                        product_wf(*self) ==> forall|k: int| 0 <= k < i ==> type_wf(#[trigger] out@[k].1),
                    decreases fields@.len() - i,
                {
                    proof {
                        assert(decreases_to!(*self => (*self)->Named_0));
                        assert(decreases_to!(*fields => fields@[i as int]));
                        assert(decreases_to!(fields@[i as int] => fields@[i as int].1));
                    }
                    out.push((fields[i].0.clone(), fields[i].1.duplicate()));
                    i = i + 1;
                }
                LumoProductType::Named(out)
            },
        }
    }

    /// Replaces every type variable named `name` by `ty`.
    pub fn substitute(&self, name: &str, ty: &LumoType) -> (r: LumoProductType)
        ensures
            substituted_product(*self, name@, *ty, r),
            product_wf(*self) && type_wf(*ty) ==> product_wf(r),
        decreases *self,
    {
        match self {
            LumoProductType::Index(types) => {
                let mut out: Vec<LumoType> = Vec::new();
                let mut i: usize = 0;
                while i < types.len()
                    invariant
                        i <= types@.len(),
                        *self == LumoProductType::Index(*types),
                        out@.len() == i,
                        forall|k: int| 0 <= k < i ==> substituted(types@[k], name@, *ty, #[trigger] out@[k]),
                        product_wf(*self) && type_wf(*ty) ==> forall|k: int| 0 <= k < i ==> type_wf(#[trigger] out@[k]),
                    decreases types@.len() - i,
                {
                    proof {
                        assert(decreases_to!(*self => (*self)->Index_0));
                        assert(decreases_to!(*types => types@[i as int]));
                    }
                    out.push(types[i].substitute(name, ty));
                    i = i + 1;
                }
                LumoProductType::Index(out)
            },
            LumoProductType::Named(fields) => {
                let mut out: Vec<(String, LumoType)> = Vec::new();
                let mut i: usize = 0;
                while i < fields.len()
                    invariant
                        i <= fields@.len(),
                        *self == LumoProductType::Named(*fields),
                        out@.len() == i,
                        forall|k: int|
                            0 <= k < i ==> (#[trigger] out@[k]).0@ == fields@[k].0@ && substituted(fields@[k].1, name@, *ty, out@[k].1),
                        product_wf(*self) && type_wf(*ty) ==> forall|k: int| 0 <= k < i ==> type_wf(#[trigger] out@[k].1),
                    decreases fields@.len() - i,
                {
                    proof {
                        assert(decreases_to!(*self => (*self)->Named_0));
                        assert(decreases_to!(*fields => fields@[i as int]));
                        assert(decreases_to!(fields@[i as int] => fields@[i as int].1));
                    }
                    out.push((fields[i].0.clone(), fields[i].1.substitute(name, ty)));
                    i = i + 1;
                }
                LumoProductType::Named(out)
            },
        }
    }
}

} // verus!
