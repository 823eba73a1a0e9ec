//! The tool attributes mutest-rs reads on items, and the crate attributes that register it.
use vstd::prelude::*;

use crate::text;

verus! {

/// Whether an attribute applies to what it stands in (`#![..]`) or to what follows it (`#[..]`).
#[derive(Clone, Copy, Debug, PartialEq, Eq, Structural)]
pub enum AttrStyle {
    Inner,
    Outer,
}

/// An attribute: its style, its path, and the words in its parentheses; `None` for a word
/// attribute, which has none.
pub struct Attribute {
    pub style: AttrStyle,
    pub path: Vec<String>,
    pub args: Option<Vec<String>>,
}

pub open spec fn string_views(v: Seq<String>) -> Seq<Seq<char>> {
    v.map_values(|s: String| s@)
}

/// Whether the attribute is the word attribute `#[tool::name]`.
pub open spec fn is_word_attr(attr: Attribute, tool: Seq<char>, name: Seq<char>) -> bool {
    attr.args.is_none() && string_views(attr.path@) == seq![tool, name]
}

/// Whether any of the attributes is the word attribute `#[mutest::<name>]`.
pub open spec fn has_mutest_word(attrs: Seq<Attribute>, name: Seq<char>) -> bool {
    exists|i: int| 0 <= i < attrs.len() && is_word_attr(#[trigger] attrs[i], "mutest"@, name)
}

fn is_mutest_word(attr: &Attribute, name: &str) -> (r: bool)
    ensures
        r == is_word_attr(*attr, "mutest"@, name@),
{
    if attr.args.is_some() || attr.path.len() != 2 {
        proof {
            if attr.path@.len() != 2 {
                assert(string_views(attr.path@).len() != 2);
            }
        }
        return false;
    }
    let tool = text::chars_of(attr.path[0].as_str());
    let word = text::chars_of(attr.path[1].as_str());
    let r = text::chars_eq(tool.as_slice(), "mutest") && text::chars_eq(word.as_slice(), name);
    proof {
        assert(string_views(attr.path@)[0] == attr.path@[0]@);
        assert(string_views(attr.path@)[1] == attr.path@[1]@);
        if r {
            assert(string_views(attr.path@) =~= seq!["mutest"@, name@]);
        }
    }
    r
}

fn any_mutest_word(attrs: &[Attribute], name: &str) -> (r: bool)
    ensures
        r == has_mutest_word(attrs@, name@),
{
    let mut i: usize = 0;
    while i < attrs.len()
        invariant
            i <= attrs.len(),
            forall|j: int| 0 <= j < i ==> !is_word_attr(#[trigger] attrs@[j], "mutest"@, name@),
        decreases attrs.len() - i,
    {
        if is_mutest_word(&attrs[i], name) {
            return true;
        }
        i += 1;
    }
    false
}

/// Whether the item is marked `#[mutest::ignore]`.
pub fn ignore(attrs: &[Attribute]) -> (r: bool)
    ensures
        r == has_mutest_word(attrs@, "ignore"@),
{
    any_mutest_word(attrs, "ignore")
}

/// Whether the item is marked `#[mutest::skip]`.
pub fn skip(attrs: &[Attribute]) -> (r: bool)
    ensures
        r == has_mutest_word(attrs@, "skip"@),
{
    any_mutest_word(attrs, "skip")
}

/// The inner attribute `#![name(arg)]`.
pub open spec fn word_attr_view(name: Seq<char>, arg: Seq<char>) -> (AttrStyle, Seq<Seq<char>>, Option<Seq<Seq<char>>>) {
    (AttrStyle::Inner, seq![name], Some(seq![arg]))
}

pub open spec fn attr_view(a: Attribute) -> (AttrStyle, Seq<Seq<char>>, Option<Seq<Seq<char>>>) {
    (a.style, string_views(a.path@), match a.args {
        Some(args) => Some(string_views(args@)),
        None => None,
    })
}

fn word_attr(name: &str, arg: &str) -> (a: Attribute)
    ensures
        attr_view(a) == word_attr_view(name@, arg@),
{
    let mut path: Vec<String> = Vec::new();
    path.push(String::from_str(name));
    let mut args: Vec<String> = Vec::new();
    args.push(String::from_str(arg));
    let a = Attribute { style: AttrStyle::Inner, path, args: Some(args) };
    proof {
        assert(string_views(a.path@) =~= seq![name@]);
        assert(string_views(args@) =~= seq![arg@]);
    }
    a
}

/// Registers the tool with the crate: `#![feature(register_tool)]`, `#![register_tool(mutest)]`,
/// and `#![feature(super_let)]`, with which substitutions bind arm values so that their temporaries
/// outlive the arm's scope.
pub fn register(crate_attrs: &mut Vec<Attribute>)
    ensures
        final(crate_attrs)@.len() == old(crate_attrs)@.len() + 3,
        forall|i: int| 0 <= i < old(crate_attrs)@.len() ==> #[trigger] final(crate_attrs)@[i] == old(crate_attrs)@[i],
        attr_view(final(crate_attrs)@[old(crate_attrs)@.len() as int]) == word_attr_view("feature"@, "register_tool"@),
        attr_view(final(crate_attrs)@[old(crate_attrs)@.len() + 1int]) == word_attr_view("register_tool"@, "mutest"@),
        attr_view(final(crate_attrs)@[old(crate_attrs)@.len() + 2int]) == word_attr_view("feature"@, "super_let"@),
{
    crate_attrs.push(word_attr("feature", "register_tool"));
    crate_attrs.push(word_attr("register_tool", "mutest"));
    crate_attrs.push(word_attr("feature", "super_let"));
}

} // verus!
