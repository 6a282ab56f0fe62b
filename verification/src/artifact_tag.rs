//! Tags for the inputs and outputs of a command line.

use vstd::prelude::*;
use std::sync::Arc;

verus! {

/// A tag that input and output artifacts in a command line can be
/// wrapped in. A tag means nothing by itself, but tags can be compared,
/// which allows grouping inputs and outputs: a dependency file, for
/// one, is associated with the inputs it tracks by a common tag.
///
/// A tag and its copies share one allocation, which lives as long as
/// any of them. The address of that allocation is taken once, when the
/// tag is made, and is from then on the number that tells the tag from
/// every other tag in existence.
#[derive(Debug)]
pub struct ArtifactTag {
    identity: Arc<()>,
    address: usize,
}

/// Another handle to the same allocation, by `Dupe::dupe`.
#[verifier::external_body]
fn dupe_identity(a: &Arc<()>) -> (b: Arc<()>) {
    dupe::Dupe::dupe(a)
}

/// The address of the allocation, by `Arc::as_ptr`.
#[verifier::external_body]
fn identity_address(a: &Arc<()>) -> (address: usize) {
    Arc::as_ptr(a) as usize
}

impl ArtifactTag {
    /// The number that tells the tag apart: two tags are the same tag
    /// exactly when they have the same.
    pub closed spec fn spec_address(&self) -> usize {
        self.address
    }

    /// A tag that is different from every other tag in existence: it
    /// shares a new allocation with nothing but its copies to come,
    /// and is told apart by the address of that allocation.
    pub fn new() -> (tag: Self) {
        let identity = Arc::new(());
        let address = identity_address(&identity);
        ArtifactTag { identity, address }
    }

    /// Whether `other` is this tag or a copy of it.
    pub fn same_tag(&self, other: &ArtifactTag) -> (same: bool)
        ensures
            same == (self.spec_address() == other.spec_address()),
    {
        self.address == other.address
    }

    /// Whether a value of the interpreter is this tag: `other` is the
    /// tag that the value holds, if it holds one.
    pub fn equals(&self, other: Option<&ArtifactTag>) -> (same: bool)
        ensures
            same == match other {
                Some(tag) => self.spec_address() == tag.spec_address(),
                None => false,
            },
    {
        match other {
            Some(other) => self.same_tag(other),
            None => false,
        }
    }

    /// The number by which the tag is hashed and shown: the address of
    /// what the tag and its copies share.
    #[verifier::when_used_as_spec(spec_address)]
    pub fn address(&self) -> (address: usize)
        ensures
            address == self.spec_address(),
    {
        self.address
    }

    /// A copy of the tag, which is the same tag: it shares what the
    /// tag shares and is told apart by the same number.
    pub fn dupe(&self) -> (tag: Self)
        ensures
            tag.spec_address() == self.spec_address(),
    {
        ArtifactTag { identity: dupe_identity(&self.identity), address: self.address }
    }
}

impl Clone for ArtifactTag {
    fn clone(&self) -> (tag: Self)
        ensures
            tag.spec_address() == self.spec_address(),
    {
        self.dupe()
    }
}

impl PartialEq for ArtifactTag {
    fn eq(&self, other: &Self) -> (same: bool) {
        self.same_tag(other)
    }
}

impl Eq for ArtifactTag {

}

/// Two tags are equal where they are the same tag.
impl vstd::std_specs::cmp::PartialEqSpecImpl for ArtifactTag {
    open spec fn obeys_eq_spec() -> bool {
        true
    }

    open spec fn eq_spec(&self, other: &Self) -> bool {
        self.spec_address() == other.spec_address()
    }
}

/// A value of the script interpreter, by its handle.
#[derive(Clone, Copy, Debug, PartialEq, Eq, Structural, Hash)]
pub struct ValueHandle(pub u64);

/// A value with a tag on it.
#[derive(Debug)]
pub struct TaggedValue {
    pub inner: ValueHandle,
    pub tag: ArtifactTag,
    pub inputs_only: bool,
}

/// A tagged value that is written as part of a command line.
#[derive(Debug)]
pub struct TaggedCommandLine {
    pub inner: TaggedValue,
}

impl TaggedValue {
    /// `inner` with `tag` on its inputs and outputs.
    pub fn new(inner: ValueHandle, tag: ArtifactTag) -> (v: Self)
        ensures
            v.inner == inner,
            v.tag == tag,
            !v.inputs_only,
    {
        TaggedValue { inner, tag, inputs_only: false }
    }

    /// `inner` with `tag` on its inputs alone.
    pub fn inputs_only(inner: ValueHandle, tag: ArtifactTag) -> (v: Self)
        ensures
            v.inner == inner,
            v.tag == tag,
            v.inputs_only,
    {
        TaggedValue { inner, tag, inputs_only: true }
    }
}

impl TaggedCommandLine {
    /// The command line that writes `inner`.
    pub fn new(inner: TaggedValue) -> (c: Self)
        ensures
            c.inner == inner,
    {
        TaggedCommandLine { inner }
    }
}

/// The result of tagging: a tagged value, or a tagged value that is
/// written as part of a command line.
#[derive(Debug)]
pub enum Tagged {
    Value(TaggedValue),
    CommandLine(TaggedCommandLine),
}

/// What tagging `inner` with `tag` gives: a tagged command line where
/// `inner` is written as part of a command line, and a tagged value
/// otherwise, either of which carries `inner` under the same tag.
pub open spec fn tagging(
    result: Tagged,
    tag: ArtifactTag,
    inner: ValueHandle,
    inputs_only: bool,
    is_command_line_like: bool,
) -> bool {
    match result {
        Tagged::Value(v) => !is_command_line_like && v.inner == inner && v.inputs_only
            == inputs_only && v.tag.spec_address() == tag.spec_address(),
        Tagged::CommandLine(c) => is_command_line_like && c.inner.inner == inner
            && c.inner.inputs_only == inputs_only && c.inner.tag.spec_address()
            == tag.spec_address(),
    }
}

/// Tags the inputs and outputs of `inner` with a copy of the tag.
pub fn tag_artifacts(this: &ArtifactTag, inner: ValueHandle, is_command_line_like: bool) -> (r:
    Tagged)
    ensures
        tagging(r, *this, inner, false, is_command_line_like),
{
    let value = TaggedValue::new(inner, this.dupe());
    if is_command_line_like {
        Tagged::CommandLine(TaggedCommandLine::new(value))
    } else {
        Tagged::Value(value)
    }
}

/// Tags the inputs of `inner` with a copy of the tag.
pub fn tag_inputs(this: &ArtifactTag, inner: ValueHandle, is_command_line_like: bool) -> (r: Tagged)
    ensures
        tagging(r, *this, inner, true, is_command_line_like),
{
    let value = TaggedValue::inputs_only(inner, this.dupe());
    if is_command_line_like {
        Tagged::CommandLine(TaggedCommandLine::new(value))
    } else {
        Tagged::Value(value)
    }
}

} // verus!
