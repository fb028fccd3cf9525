//! Joining of filesystem paths and of hierarchical group names.
//!
//! The hierarchy's root is named `/`. A path is joined with a separator between
//! its parts, except that the root's name adds nothing to a path; a name is
//! joined the same way, except that the root's name contributes no prefix.

use vstd::prelude::*;
use vstd::string::*;
use vstd::std_specs::iter::IteratorSpec;

verus! {

/// The name of the hierarchy's root, `/`.
pub open spec fn root_name() -> Seq<char> {
    seq!['/']
}

/// `base` itself where `child` is the root's name, else `base`, a separator
/// and `child`.
pub open spec fn spec_join_path(base: Seq<char>, child: Seq<char>) -> Seq<char> {
    if child == root_name() {
        base
    } else {
        base + seq!['/'] + child
    }
}

/// `child` itself where `parent` is the root's name, else `parent`, a
/// separator and `child`.
pub open spec fn spec_join_name(parent: Seq<char>, child: Seq<char>) -> Seq<char> {
    if parent == root_name() {
        child
    } else {
        parent + seq!['/'] + child
    }
}

/// Whether `name` is the name of the hierarchy's root.
pub fn is_root_name(name: &str) -> (b: bool)
    ensures
        b == (name@ == root_name()),
{
    broadcast use vstd::string::group_string_axioms;

    let mut it = name.chars();
    assert(it.remaining() == name@);
    match it.next() {
        Some(c) => {
            let second = it.next();
            assert(second is None <==> name@.len() == 1);
            assert(c == name@[0]);
            if c == '/' && second.is_none() {
                assert(name@ =~= root_name());
                true
            } else {
                false
            }
        },
        None => false,
    }
}

/// The root's name as an owned string.
pub fn root_name_string() -> (r: String)
    ensures
        r@ == root_name(),
{
    let r = String::from_str("/");
    proof {
        reveal_strlit("/");
    }
    assert(r@ =~= root_name());
    r
}

/// `left`, a separator, and `right`.
fn join_with_separator(left: &str, right: &str) -> (r: String)
    ensures
        r@ == left@ + seq!['/'] + right@,
{
    let mut r = String::from_str(left);
    r.push('/');
    r.append(right);
    assert(r@ =~= left@ + seq!['/'] + right@);
    r
}

/// Joins a directory's path with the name of a group below it.
pub fn join_path(base_path: &str, filename: &str) -> (r: String)
    ensures
        r@ == spec_join_path(base_path@, filename@),
{
    if is_root_name(filename) {
        String::from_str(base_path)
    } else {
        join_with_separator(base_path, filename)
    }
}

/// Joins the hierarchical name of a group with the name of a group directly
/// below it.
pub fn join_name(base_name: &str, filename: &str) -> (r: String)
    ensures
        r@ == spec_join_name(base_name@, filename@),
{
    if is_root_name(base_name) {
        String::from_str(filename)
    } else {
        join_with_separator(base_name, filename)
    }
}

} // verus!
