//! Tagged trees, as the `crab_nbt` crate holds and renders them.
//!
//! The encoders build their output from `crab_nbt`'s own values. Verus cannot
//! look inside those, so each of them is described by the mathematical tree
//! that it holds: [`tag_tree`] for a tag, [`compound_entries`] for a compound
//! and [`nbt_document`] for a named root. The functions at the end of this
//! file are the only places where `crab_nbt` and `bytes` are called. Their
//! contracts are taken from the source of those crates and are not proved.

use vstd::prelude::*;

verus! {

/// A tagged tree as a mathematical value. Only the kinds of tags that the two
/// formats use are told apart.
pub enum Tree {
    /// A 16-bit signed integer.
    Short(i16),
    /// A 32-bit signed integer.
    Int(i32),
    /// A string.
    Text(Seq<char>),
    /// An array of bytes.
    ByteArray(Seq<u8>),
    /// A list of unnamed trees.
    List(Seq<Tree>),
    /// Named trees, in the order in which they were put.
    Compound(Seq<(Seq<char>, Tree)>),
}

/// A root compound and the name it is rendered under.
pub struct Document {
    pub name: Seq<char>,
    pub root: Seq<(Seq<char>, Tree)>,
}

/// `crab_nbt::NbtTag`, one tag of a tree. Its contents are known only through
/// [`tag_tree`].
#[verifier::external_type_specification]
#[verifier::external_body]
pub struct ExNbtTag(crab_nbt::NbtTag);

/// `crab_nbt::NbtCompound`, an ordered collection of named tags. Its contents
/// are known only through [`compound_entries`].
#[verifier::external_type_specification]
#[verifier::external_body]
pub struct ExNbtCompound(crab_nbt::NbtCompound);

/// `crab_nbt::Nbt`, a root compound with its name. Its contents are known
/// only through [`nbt_document`].
#[verifier::external_type_specification]
#[verifier::external_body]
pub struct ExNbt(crab_nbt::Nbt);

/// The tree that a tag holds.
pub uninterp spec fn tag_tree(tag: crab_nbt::NbtTag) -> Tree;

/// The named trees that a compound holds, in order.
pub uninterp spec fn compound_entries(compound: crab_nbt::NbtCompound) -> Seq<(Seq<char>, Tree)>;

/// The name and the root compound that an `Nbt` holds.
pub uninterp spec fn nbt_document(nbt: crab_nbt::Nbt) -> Document;

/// The bytes that `crab_nbt` renders a document to.
pub uninterp spec fn nbt_encoding(document: Document) -> Seq<u8>;

/// The trees that a sequence of tags holds.
pub open spec fn trees(tags: Seq<crab_nbt::NbtTag>) -> Seq<Tree> {
    tags.map_values(|tag: crab_nbt::NbtTag| tag_tree(tag))
}

/// Some entry has the given name.
pub open spec fn has_name(entries: Seq<(Seq<char>, Tree)>, name: Seq<char>) -> bool {
    exists|i: int| 0 <= i < entries.len() && (#[trigger] entries[i]).0 == name
}

/// The entries after `tree` has been put under `name`: it is added at the end,
/// unless the name is taken, in which case nothing changes.
pub open spec fn put_entry(entries: Seq<(Seq<char>, Tree)>, name: Seq<char>, tree: Tree) -> Seq<
    (Seq<char>, Tree),
> {
    if has_name(entries, name) {
        entries
    } else {
        entries.push((name, tree))
    }
}

/// `NbtTag::Short`: the tag that holds the given 16-bit integer.
#[verifier::external_body]
pub(crate) fn tag_short(value: i16) -> (tag: crab_nbt::NbtTag)
    ensures
        tag_tree(tag) == Tree::Short(value),
{
    crab_nbt::NbtTag::Short(value)
}

/// `NbtTag::Int`: the tag that holds the given 32-bit integer.
#[verifier::external_body]
pub(crate) fn tag_int(value: i32) -> (tag: crab_nbt::NbtTag)
    ensures
        tag_tree(tag) == Tree::Int(value),
{
    crab_nbt::NbtTag::Int(value)
}

/// `NbtTag::String`: the tag that holds the given string.
#[verifier::external_body]
pub(crate) fn tag_text(value: String) -> (tag: crab_nbt::NbtTag)
    ensures
        tag_tree(tag) == Tree::Text(value@),
{
    crab_nbt::NbtTag::String(value)
}

/// `NbtTag::ByteArray` over `Bytes::from`: the tag that holds the given
/// bytes, unchanged and in order.
#[verifier::external_body]
pub(crate) fn tag_byte_array(data: Vec<u8>) -> (tag: crab_nbt::NbtTag)
    ensures
        tag_tree(tag) == Tree::ByteArray(data@),
{
    crab_nbt::NbtTag::ByteArray(bytes::Bytes::from(data))
}

/// `NbtTag::List`: the tag that holds the given tags, in order.
#[verifier::external_body]
pub(crate) fn tag_list(items: Vec<crab_nbt::NbtTag>) -> (tag: crab_nbt::NbtTag)
    ensures
        tag_tree(tag) == Tree::List(trees(items@)),
{
    crab_nbt::NbtTag::List(items)
}

/// `NbtTag::Compound`: the tag that holds the given compound.
#[verifier::external_body]
pub(crate) fn tag_compound(compound: crab_nbt::NbtCompound) -> (tag: crab_nbt::NbtTag)
    ensures
        tag_tree(tag) == Tree::Compound(compound_entries(compound)),
{
    crab_nbt::NbtTag::Compound(compound)
}

/// `NbtCompound::new`: the compound without entries.
#[verifier::external_body]
pub(crate) fn compound_new() -> (compound: crab_nbt::NbtCompound)
    ensures
        compound_entries(compound) == Seq::<(Seq<char>, Tree)>::empty(),
{
    crab_nbt::NbtCompound::new()
}

/// `NbtCompound::put`: adds the tag under the name at the end of the
/// compound. Where the compound already has an entry of that name, `put`
/// leaves it as it is.
#[verifier::external_body]
pub(crate) fn compound_put(compound: &mut crab_nbt::NbtCompound, name: String, tag: crab_nbt::NbtTag)
    ensures
        compound_entries(*final(compound)) == put_entry(
            compound_entries(*old(compound)),
            name@,
            tag_tree(tag),
        ),
{
    compound.put(name, tag)
}

/// Adds the tag under a name that the compound does not have yet.
pub(crate) fn put_fresh(compound: &mut crab_nbt::NbtCompound, name: String, tag: crab_nbt::NbtTag)
    requires
        !has_name(compound_entries(*old(compound)), name@),
    ensures
        compound_entries(*final(compound)) == compound_entries(*old(compound)).push(
            (name@, tag_tree(tag)),
        ),
{
    compound_put(compound, name, tag)
}

/// `Nbt::new`: the given root compound under the given name.
#[verifier::external_body]
pub(crate) fn nbt_new(name: String, root: crab_nbt::NbtCompound) -> (nbt: crab_nbt::Nbt)
    ensures
        nbt_document(nbt) == (Document { name: name@, root: compound_entries(root) }),
{
    crab_nbt::Nbt::new(name, root)
}

/// `Nbt::write`: the bytes of the document, which depend on nothing but the
/// name and the tree.
#[verifier::external_body]
pub(crate) fn nbt_write(nbt: &crab_nbt::Nbt) -> (out: Vec<u8>)
    ensures
        out@ == nbt_encoding(nbt_document(*nbt)),
{
    nbt.write().to_vec()
}

} // verus!
