//! The persistent maps of the compiler's environments, which come from the `im` crate.
//!
//! Each instantiation that the compiler uses has a name for its contents and a
//! wrapper for each method that the compiler calls.
use vstd::prelude::*;
use im::HashMap;
use crate::context::{VarEnv, FunEnv};

verus! {

#[verifier::external_type_specification]
#[verifier::external_body]
#[verifier::reject_recursive_types(K)]
#[verifier::reject_recursive_types(V)]
#[verifier::reject_recursive_types(S)]
pub struct ExImHashMap<K, V, S>(HashMap<K, V, S>);

/// What a map of variables holds, keyed by the variables' names.
pub uninterp spec fn var_entries(m: HashMap<String, VarEnv>) -> Map<Seq<char>, VarEnv>;

/// What a map of functions holds, keyed by the functions' names.
pub uninterp spec fn fun_entries(m: HashMap<String, FunEnv>) -> Map<Seq<char>, FunEnv>;

/// What a map of seen names holds.
pub uninterp spec fn seen_entries(m: HashMap<String, bool>) -> Map<Seq<char>, bool>;

/// The empty map of variables.
pub open spec fn no_vars() -> Map<Seq<char>, VarEnv> {
    Map::empty()
}

/// The empty map of functions.
pub open spec fn no_funs() -> Map<Seq<char>, FunEnv> {
    Map::empty()
}

/// The empty map of names.
pub open spec fn no_names() -> Map<Seq<char>, bool> {
    Map::empty()
}

/// `im::HashMap::new`: the empty map of variables.
#[verifier::external_body]
pub fn vars_new() -> (r: HashMap<String, VarEnv>)
    ensures
        var_entries(r) == no_vars(),
{
    HashMap::new()
}

/// `im::HashMap::get`: the entry of a variable, if the map holds one.
#[verifier::external_body]
pub fn vars_get(m: &HashMap<String, VarEnv>, k: &str) -> (r: Option<VarEnv>)
    ensures
        r == (if var_entries(*m).contains_key(k@) {
            Some(var_entries(*m)[k@])
        } else {
            None
        }),
{
    m.get(k).copied()
}

/// `im::HashMap::contains_key`: whether the map holds an entry for a variable.
#[verifier::external_body]
pub fn vars_contains(m: &HashMap<String, VarEnv>, k: &str) -> (r: bool)
    ensures
        r == var_entries(*m).contains_key(k@),
{
    m.contains_key(k)
}

/// `im::HashMap::insert`: sets the entry of a variable in place.
#[verifier::external_body]
pub fn vars_insert(m: &mut HashMap<String, VarEnv>, k: String, v: VarEnv)
    ensures
        var_entries(*final(m)) == var_entries(*old(m)).insert(k@, v),
{
    m.insert(k, v);
}

/// `im::HashMap::update`: a new map that holds the entries of `m` and the given one.
#[verifier::external_body]
pub fn vars_update(m: &HashMap<String, VarEnv>, k: String, v: VarEnv) -> (r: HashMap<String, VarEnv>)
    ensures
        var_entries(r) == var_entries(*m).insert(k@, v),
{
    m.update(k, v)
}

/// `im::HashMap::clone`: a map with the same entries.
#[verifier::external_body]
pub fn vars_clone(m: &HashMap<String, VarEnv>) -> (r: HashMap<String, VarEnv>)
    ensures
        var_entries(r) == var_entries(*m),
{
    m.clone()
}

/// `im::HashMap::extend`: inserts every entry of `src` into `dst`, which overrides `dst`'s own.
#[verifier::external_body]
pub fn vars_extend(dst: &mut HashMap<String, VarEnv>, src: &HashMap<String, VarEnv>)
    ensures
        var_entries(*final(dst)) == var_entries(*old(dst)).union_prefer_right(var_entries(*src)),
{
    dst.extend(src.clone());
}

/// `im::HashMap::intersection`: the entries of `a` whose names `b` also holds.
#[verifier::external_body]
pub fn vars_intersection(a: &HashMap<String, VarEnv>, b: &HashMap<String, VarEnv>) -> (r: HashMap<String, VarEnv>)
    ensures
        var_entries(r) == var_entries(*a).restrict(var_entries(*b).dom()),
{
    a.clone().intersection(b.clone())
}

/// `im::HashMap::new`: the empty map of functions.
#[verifier::external_body]
pub fn funs_new() -> (r: HashMap<String, FunEnv>)
    ensures
        fun_entries(r) == no_funs(),
{
    HashMap::new()
}

/// `im::HashMap::get`: the entry of a function, if the map holds one.
#[verifier::external_body]
pub fn funs_get(m: &HashMap<String, FunEnv>, k: &str) -> (r: Option<FunEnv>)
    ensures
        r == (if fun_entries(*m).contains_key(k@) {
            Some(fun_entries(*m)[k@])
        } else {
            None
        }),
{
    m.get(k).copied()
}

/// `im::HashMap::insert`: sets the entry of a function in place.
#[verifier::external_body]
pub fn funs_insert(m: &mut HashMap<String, FunEnv>, k: String, v: FunEnv)
    ensures
        fun_entries(*final(m)) == fun_entries(*old(m)).insert(k@, v),
{
    m.insert(k, v);
}

/// `im::HashMap::clone`: a map with the same entries.
#[verifier::external_body]
pub fn funs_clone(m: &HashMap<String, FunEnv>) -> (r: HashMap<String, FunEnv>)
    ensures
        fun_entries(r) == fun_entries(*m),
{
    m.clone()
}

/// `im::HashMap::extend`: inserts every entry of `src` into `dst`, which overrides `dst`'s own.
#[verifier::external_body]
pub fn funs_extend(dst: &mut HashMap<String, FunEnv>, src: HashMap<String, FunEnv>)
    ensures
        fun_entries(*final(dst)) == fun_entries(*old(dst)).union_prefer_right(fun_entries(src)),
{
    dst.extend(src);
}

/// `im::HashMap::new`: the empty set of seen names.
#[verifier::external_body]
pub fn seen_new() -> (r: HashMap<String, bool>)
    ensures
        seen_entries(r) == no_names(),
{
    HashMap::new()
}

/// `im::HashMap::contains_key`: whether a name was seen.
#[verifier::external_body]
pub fn seen_contains(m: &HashMap<String, bool>, k: &str) -> (r: bool)
    ensures
        r == seen_entries(*m).contains_key(k@),
{
    m.contains_key(k)
}

/// `im::HashMap::insert`: records a name in place.
#[verifier::external_body]
pub fn seen_insert(m: &mut HashMap<String, bool>, k: String, v: bool)
    ensures
        seen_entries(*final(m)) == seen_entries(*old(m)).insert(k@, v),
{
    m.insert(k, v);
}

} // verus!
