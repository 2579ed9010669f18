//! Property expressions.
//!
//! A property value is either a literal (string, vector, matrix), a
//! dependency reference that resolves at read time to another entity's
//! property, a typed invocation wrapping an argument expression, or an array
//! of expressions. The graph mapper only emits these expressions; the host
//! document engine evaluates them on demand, which is what keeps descendant
//! transforms and inherited material state live when an ancestor changes.
//!
//! Scalars are fixed point: [`crate::UNIT`] represents the value 1.0.

use vstd::prelude::*;
use crate::UNIT;

verus! {

#[derive(Clone, Copy, PartialEq, Eq, Structural, Debug)]
pub struct V2 {
    pub x: i64,
    pub y: i64,
}

#[derive(Clone, Copy, PartialEq, Eq, Structural, Debug)]
pub struct V3 {
    pub x: i64,
    pub y: i64,
    pub z: i64,
}

#[derive(Clone, Copy, PartialEq, Eq, Structural, Debug)]
pub struct V4 {
    pub x: i64,
    pub y: i64,
    pub z: i64,
    pub w: i64,
}

/// A column-major 4x4 matrix: `c{i}r{j}` is column i, row j.
#[derive(Clone, Copy, PartialEq, Eq, Structural, Debug)]
pub struct M4 {
    pub c0r0: i64,
    pub c0r1: i64,
    pub c0r2: i64,
    pub c0r3: i64,
    pub c1r0: i64,
    pub c1r1: i64,
    pub c1r2: i64,
    pub c1r3: i64,
    pub c2r0: i64,
    pub c2r1: i64,
    pub c2r2: i64,
    pub c2r3: i64,
    pub c3r0: i64,
    pub c3r1: i64,
    pub c3r2: i64,
    pub c3r3: i64,
}

/// Where a dependency reference starts resolving: the owning entity, its
/// parent, or a search by name among the descendants of a base path.
#[derive(PartialEq, Debug)]
pub enum EntityPath {
    This,
    Parent,
    Search(Box<EntityPath>, String),
}

/// A reference to the property `property_key` of the entity that
/// `entity_path` resolves to.
#[derive(PartialEq, Debug)]
pub struct NamedPropRef {
    pub entity_path: EntityPath,
    pub property_key: String,
}

/// A property expression.
#[derive(PartialEq, Debug)]
pub enum Pon {
    Str(String),
    Vector3(V3),
    Vector4(V4),
    Matrix4(M4),
    DependencyReference(NamedPropRef),
    Typed { tag: String, arg: Box<Pon> },
    Arr(Vec<Pon>),
}

pub open spec fn spec_m4_identity() -> M4 {
    M4 {
        c0r0: UNIT, c0r1: 0, c0r2: 0, c0r3: 0,
        c1r0: 0, c1r1: UNIT, c1r2: 0, c1r3: 0,
        c2r0: 0, c2r1: 0, c2r2: UNIT, c2r3: 0,
        c3r0: 0, c3r1: 0, c3r2: 0, c3r3: UNIT,
    }
}

pub fn m4_identity() -> (r: M4)
    ensures
        r == spec_m4_identity(),
{
    M4 {
        c0r0: UNIT, c0r1: 0, c0r2: 0, c0r3: 0,
        c1r0: 0, c1r1: UNIT, c1r2: 0, c1r3: 0,
        c2r0: 0, c2r1: 0, c2r2: UNIT, c2r3: 0,
        c3r0: 0, c3r1: 0, c3r2: 0, c3r3: UNIT,
    }
}

/// `p` is a reference to the parent entity's property `prop`.
pub open spec fn is_parent_ref(p: Pon, prop: Seq<char>) -> bool {
    match p {
        Pon::DependencyReference(r) => r.entity_path == EntityPath::Parent && r.property_key@
            == prop,
        _ => false,
    }
}

/// `p` is a reference to the owning entity's own property `prop`.
pub open spec fn is_this_ref(p: Pon, prop: Seq<char>) -> bool {
    match p {
        Pon::DependencyReference(r) => r.entity_path == EntityPath::This && r.property_key@
            == prop,
        _ => false,
    }
}

/// `r` refers to the property `prop` of the descendant named `node`,
/// searched from the owning entity.
pub open spec fn is_search_this_ref(r: NamedPropRef, node: Seq<char>, prop: Seq<char>) -> bool {
    (match r.entity_path {
        EntityPath::Search(base, n) => *base == EntityPath::This && n@ == node,
        _ => false,
    }) && r.property_key@ == prop
}

/// `p` is the invocation `ty` applied to a reference to the owning entity's
/// property `prop`.
pub open spec fn is_typed_this_ref(p: Pon, ty: Seq<char>, prop: Seq<char>) -> bool {
    match p {
        Pon::Typed { tag, arg } => tag@ == ty && is_this_ref(*arg, prop),
        _ => false,
    }
}

/// `p` is the invocation `ty` applied to the resource key `key`.
pub open spec fn is_resource_ref(p: Pon, ty: Seq<char>, key: Seq<char>) -> bool {
    match p {
        Pon::Typed { tag, arg } => tag@ == ty && (match *arg {
            Pon::Str(s) => s@ == key,
            _ => false,
        }),
        _ => false,
    }
}

/// `p` is the lazy transform composition chain: the parent's `transform`,
/// this entity's `local_transform`, then translate, rotate and scale built
/// from this entity's own `translation`, `rotation` and `scale`, multiplied
/// in that fixed order.
pub open spec fn is_transform_chain(p: Pon) -> bool {
    match p {
        Pon::Typed { tag, arg } => tag@ == "mul"@ && (match *arg {
            Pon::Arr(v) => v@.len() == 5 && is_parent_ref(v@[0], "transform"@) && is_this_ref(
                v@[1],
                "local_transform"@,
            ) && is_typed_this_ref(v@[2], "translate"@, "translation"@) && is_typed_this_ref(
                v@[3],
                "rotate_quaternion"@,
                "rotation"@,
            ) && is_typed_this_ref(v@[4], "scale"@, "scale"@),
            _ => false,
        }),
        _ => false,
    }
}

pub fn parent_ref(prop: &str) -> (p: Pon)
    ensures
        is_parent_ref(p, prop@),
{
    Pon::DependencyReference(
        NamedPropRef { entity_path: EntityPath::Parent, property_key: String::from_str(prop) },
    )
}

pub fn this_ref(prop: &str) -> (p: Pon)
    ensures
        is_this_ref(p, prop@),
{
    Pon::DependencyReference(
        NamedPropRef { entity_path: EntityPath::This, property_key: String::from_str(prop) },
    )
}

pub fn search_this_ref(node: &str, prop: &str) -> (r: NamedPropRef)
    ensures
        is_search_this_ref(r, node@, prop@),
{
    NamedPropRef {
        entity_path: EntityPath::Search(Box::new(EntityPath::This), String::from_str(node)),
        property_key: String::from_str(prop),
    }
}

pub fn typed_this_ref(ty: &str, prop: &str) -> (p: Pon)
    ensures
        is_typed_this_ref(p, ty@, prop@),
{
    Pon::Typed { tag: String::from_str(ty), arg: Box::new(this_ref(prop)) }
}

pub fn resource_ref(ty: &str, key: String) -> (p: Pon)
    ensures
        is_resource_ref(p, ty@, key@),
{
    Pon::Typed { tag: String::from_str(ty), arg: Box::new(Pon::Str(key)) }
}

pub fn transform_chain() -> (p: Pon)
    ensures
        is_transform_chain(p),
{
    let mut parts: Vec<Pon> = Vec::new();
    parts.push(parent_ref("transform"));
    parts.push(this_ref("local_transform"));
    parts.push(typed_this_ref("translate", "translation"));
    parts.push(typed_this_ref("rotate_quaternion", "rotation"));
    parts.push(typed_this_ref("scale", "scale"));
    Pon::Typed { tag: String::from_str("mul"), arg: Box::new(Pon::Arr(parts)) }
}

} // verus!
