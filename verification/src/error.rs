//! The chainable error value that failures carry, and its passage
//! through `anyhow::Error` and back.

use vstd::prelude::*;
use std::sync::Arc;
use crate::execute_error::displayed_in_full;

verus! {

/// `anyhow::Error`, which is carried through without a look inside.
#[verifier::external_type_specification]
#[verifier::external_body]
pub struct ExAnyhowError(anyhow::Error);

/// `core::fmt::Formatter`, which the impls of `Display` and `Debug` write to.
#[verifier::external_type_specification]
#[verifier::external_body]
pub struct ExFormatter<'a>(core::fmt::Formatter<'a>);

/// `core::fmt::Error`, which writing to a formatter can end in.
#[verifier::external_type_specification]
#[verifier::external_body]
pub struct ExFmtError(core::fmt::Error);

/// The innermost part of an error: the error it was made from, and
/// optionally the text under which it is to be shown in reports.
///
/// The error is shared, and lives as long as any root that was made
/// from it. Its address is taken once, when a root is made from it,
/// and is from then on the number by which roots are told apart.
#[derive(Debug)]
pub struct ErrorRoot {
    inner: Arc<anyhow::Error>,
    late_format: Option<String>,
    address: usize,
}

/// One layer of an error.
#[derive(Debug)]
pub enum ErrorKind {
    /// The error it all started with.
    Root(ErrorRoot),
    /// An error with a line of context around it.
    WithContext(String, ChainedError),
    /// An error that has been reported already.
    Emitted(ChainedError),
}

/// An error: a root with any number of layers around it.
#[derive(Debug)]
pub struct ChainedError(pub Arc<ErrorKind>);

/// What surrounds the root of an error, layer by layer.
pub enum Layer {
    /// A line of context.
    Context(Seq<char>),
    /// The mark of an error that has been reported.
    Emitted,
}

/// The address of a shared error, by `Arc::as_ptr`.
#[verifier::external_body]
fn shared_address(a: &Arc<anyhow::Error>) -> (address: usize) {
    Arc::as_ptr(a) as usize
}

impl ErrorRoot {
    /// The error that the root was made from.
    pub closed spec fn inner(&self) -> anyhow::Error {
        *self.inner
    }

    /// The text under which the root is to be shown in reports.
    pub closed spec fn late_format(&self) -> Option<Seq<char>> {
        match self.late_format {
            Some(s) => Some(s@),
            None => None,
        }
    }

    /// The number that tells the root apart: two roots share the very
    /// same underlying error exactly when they have the same.
    pub closed spec fn identity(&self) -> usize {
        self.address
    }

    /// A root made from `inner`, to be shown as `late_format` says.
    pub fn new(inner: Arc<anyhow::Error>, late_format: Option<String>) -> (r: Self)
        ensures
            r.inner() == *inner,
            r.late_format() == match late_format {
                Some(s) => Some(s@),
                None => None,
            },
    {
        let address = shared_address(&inner);
        ErrorRoot { inner, late_format, address }
    }

    /// The text under which the root is to be shown in reports, where
    /// it has one.
    pub fn get_late_format(&self) -> (r: Option<&str>)
        ensures
            match r {
                Some(s) => self.late_format() == Some(s@),
                None => self.late_format().is_none(),
            },
    {
        match &self.late_format {
            Some(s) => Some(s.as_str()),
            None => None,
        }
    }
}

impl ChainedError {
    /// The root of the error.
    pub open spec fn spec_root(&self) -> ErrorRoot
        decreases self,
    {
        match *self.0 {
            ErrorKind::Root(r) => r,
            ErrorKind::WithContext(_, inner) => inner.spec_root(),
            ErrorKind::Emitted(inner) => inner.spec_root(),
        }
    }

    /// The layers around the root, outermost first.
    pub open spec fn layers(&self) -> Seq<Layer>
        decreases self,
    {
        match *self.0 {
            ErrorKind::Root(_) => Seq::empty(),
            ErrorKind::WithContext(c, inner) => seq![Layer::Context(c@)] + inner.layers(),
            ErrorKind::Emitted(inner) => seq![Layer::Emitted] + inner.layers(),
        }
    }

    /// An error that consists of a root alone.
    pub fn new_from_arc(inner: Arc<anyhow::Error>, late_format: Option<String>) -> (e: ChainedError)
        ensures
            e.layers() == Seq::<Layer>::empty(),
            e.spec_root().inner() == *inner,
            e.spec_root().late_format() == match late_format {
                Some(s) => Some(s@),
                None => None,
            },
    {
        ChainedError(Arc::new(ErrorKind::Root(ErrorRoot::new(inner, late_format))))
    }

    /// The error with one more line of context around it.
    pub fn context(self, context: &str) -> (e: ChainedError)
        ensures
            e.spec_root() == self.spec_root(),
            e.layers() == seq![Layer::Context(context@)] + self.layers(),
    {
        ChainedError(Arc::new(ErrorKind::WithContext(context.to_owned(), self)))
    }

    /// The error, marked as reported.
    pub fn mark_emitted(self) -> (e: ChainedError)
        ensures
            e.spec_root() == self.spec_root(),
            e.layers() == seq![Layer::Emitted] + self.layers(),
    {
        ChainedError(Arc::new(ErrorKind::Emitted(self)))
    }

    /// The outermost layer of the error.
    pub fn kind(&self) -> (k: &ErrorKind)
        ensures
            *k == *self.0,
    {
        &*self.0
    }

    /// The root of the error.
    pub fn root(&self) -> (r: &ErrorRoot)
        ensures
            *r == self.spec_root(),
        decreases self,
    {
        match &*self.0 {
            ErrorKind::Root(r) => r,
            ErrorKind::WithContext(_, inner) => inner.root(),
            ErrorKind::Emitted(inner) => inner.root(),
        }
    }
}

impl Clone for ChainedError {
    fn clone(&self) -> (e: Self)
        ensures
            e == *self,
    {
        ChainedError(self.0.clone())
    }
}

impl ChainedError {
    /// An error that consists of a root made from `error`, which is
    /// shown as it is.
    pub fn new(error: anyhow::Error) -> (e: ChainedError)
        ensures
            e.layers() == Seq::<Layer>::empty(),
            e.spec_root().inner() == error,
            e.spec_root().late_format().is_none(),
    {
        ChainedError::new_from_arc(Arc::new(error), None)
    }
}

/// One link of the cause chain of an `anyhow::Error`, as this library
/// reads it.
pub enum ChainEntry {
    /// The link is an error of this library.
    Base(ChainedError),
    /// The link is anything else; this is the text it displays.
    Context(String),
}

/// One link of a cause chain: an error of this library, or the text of
/// anything else.
pub enum ChainLink {
    Base(ChainedError),
    Context(Seq<char>),
}

impl View for ChainEntry {
    type V = ChainLink;

    open spec fn view(&self) -> ChainLink {
        match *self {
            ChainEntry::Base(e) => ChainLink::Base(e),
            ChainEntry::Context(s) => ChainLink::Context(s@),
        }
    }
}

impl ChainEntry {
    /// Whether the link is anything but an error of this library.
    pub fn is_context(&self) -> (b: bool)
        ensures
            b == (self@ is Context),
    {
        match self {
            ChainEntry::Base(_) => false,
            ChainEntry::Context(_) => true,
        }
    }
}

/// The links of a chain, as a sequence of their views.
pub open spec fn links(chain: Seq<ChainEntry>) -> Seq<ChainLink> {
    Seq::new(chain.len(), |i: int| chain[i]@)
}

/// The cause chain of an `anyhow::Error`, outermost link first: what
/// `anyhow::Error::chain` walks, each link read as `ChainEntry` reads it.
pub uninterp spec fn chain_of(error: anyhow::Error) -> Seq<ChainLink>;

/// What an `anyhow::Error` displays as, by `{}`.
pub uninterp spec fn displayed(error: anyhow::Error) -> Seq<char>;

/// The text that a link of a cause chain displays: the text of its
/// outermost layer for an error of this library, and else the text
/// that was read of it.
pub open spec fn link_text(link: ChainLink) -> Seq<char> {
    match link {
        ChainLink::Base(e) => e.headline(),
        ChainLink::Context(text) => text,
    }
}

/// The length of the cause chain, by `anyhow::Error::chain` and the
/// `len` of the iterator it returns. The chain starts with the error
/// itself, so it is never empty.
#[verifier::external_body]
fn chain_len(value: &anyhow::Error) -> (n: usize)
    ensures
        n == chain_of(*value).len(),
        n >= 1,
{
    value.chain().len()
}

/// The link at position `i` of the cause chain that
/// `anyhow::Error::chain` walks: the error of this library that the link
/// downcasts to, or else the text that the link displays. The first
/// link is the error itself, and what it displays is what the error
/// displays.
#[verifier::external_body]
fn chain_entry(value: &anyhow::Error, i: usize) -> (entry: ChainEntry)
    requires
        i < chain_of(*value).len(),
    ensures
        entry@ == chain_of(*value)[i as int],
        i == 0 ==> link_text(entry@) == displayed(*value),
{
    let link = value.chain().nth(i).unwrap();
    match link.downcast_ref::<ChainedError>() {
        Some(base) => ChainEntry::Base(ChainedError(base.0.clone())),
        None => ChainEntry::Context(link.to_string()),
    }
}

/// The text that an `anyhow::Error` displays, by its `Display`.
#[verifier::external_body]
fn anyhow_display(value: &anyhow::Error) -> (text: String)
    ensures
        text@ == displayed(*value),
{
    value.to_string()
}

impl ErrorRoot {
    /// Whether two roots share the very same underlying error, as a
    /// root does with itself and with every copy of it.
    pub fn test_equal(&self, other: &Self) -> (same: bool)
        ensures
            same == (self.identity() == other.identity()),
    {
        self.address == other.address
    }

    /// The text that the underlying error displays.
    pub fn display_text(&self) -> (text: String)
        ensures
            text@ == displayed(self.inner()),
    {
        anyhow_display(&self.inner)
    }

    /// The error that the root was made from, shared once more.
    pub fn shared_inner(&self) -> (r: Arc<anyhow::Error>)
        ensures
            *r == self.inner(),
    {
        self.inner.clone()
    }

    /// The error that the root was made from.
    pub fn inner_error(&self) -> (r: &anyhow::Error)
        ensures
            *r == self.inner(),
    {
        &*self.inner
    }
}

/// Wraps an error of this library into an `anyhow::Error`, by
/// `anyhow::Error::new`: the error is the one link of the result's
/// cause chain, and the result displays what the error displays. The
/// error hands out no cause, so in full the result displays no more.
#[verifier::external_body]
fn anyhow_from_chained(e: ChainedError) -> (r: anyhow::Error)
    ensures
        chain_of(r) == seq![ChainLink::Base(e)],
        displayed(r) == e.headline(),
        displayed_in_full(r) == e.headline(),
{
    anyhow::Error::new(e)
}

/// Puts a line of context around an `anyhow::Error`, by
/// `anyhow::Error::context`: the line becomes the first link of the
/// cause chain and what the result displays, and in full the result
/// displays the line, a colon and what the error displayed in full.
#[verifier::external_body]
fn anyhow_with_context(inner: anyhow::Error, text: String) -> (r: anyhow::Error)
    ensures
        chain_of(r) == seq![ChainLink::Context(text@)] + chain_of(inner),
        displayed(r) == text@,
        displayed_in_full(r) == text@ + ": "@ + displayed_in_full(inner),
{
    inner.context(text)
}

impl ChainedError {
    /// The cause chain that stands for the error: its outer lines of
    /// context, the outermost first, and then what lies below them.
    pub open spec fn links_of(&self) -> Seq<ChainLink>
        decreases self,
    {
        match *self.0 {
            ErrorKind::WithContext(c, inner) => seq![ChainLink::Context(c@)] + inner.links_of(),
            _ => seq![ChainLink::Base(*self)],
        }
    }

    /// The text of the error in full: its outer lines of context, the
    /// outermost first, and then the text of what lies below them,
    /// each set off from the next by a colon.
    pub open spec fn full_text(&self) -> Seq<char>
        decreases self,
    {
        match *self.0 {
            ErrorKind::WithContext(c, inner) => c@ + ": "@ + inner.full_text(),
            _ => self.headline(),
        }
    }

    fn wrap(&self) -> (r: anyhow::Error)
        ensures
            chain_of(r) == self.links_of(),
            displayed(r) == self.headline(),
            displayed_in_full(r) == self.full_text(),
        decreases self,
    {
        match &*self.0 {
            ErrorKind::WithContext(c, inner) => anyhow_with_context(inner.wrap(), c.clone()),
            _ => anyhow_from_chained(self.clone()),
        }
    }

    /// The error as an `anyhow::Error`: what lies below its outer lines
    /// of context is wrapped as it is, and the lines are put around it
    /// again as lines of context of the result. The result displays
    /// the text of the error's outermost layer, and in full the lines
    /// of context too.
    pub fn into_anyhow(self) -> (r: anyhow::Error)
        ensures
            chain_of(r) == self.links_of(),
            displayed(r) == self.headline(),
            displayed_in_full(r) == self.full_text(),
    {
        self.wrap()
    }
}

/// The contexts of a chain prefix as layers of an error.
pub open spec fn contexts_of(prefix: Seq<ChainLink>) -> Seq<Layer> {
    Seq::new(prefix.len(), |i: int| Layer::Context(prefix[i]->Context_0))
}

/// `e` is the error that the cause chain `chain` of `value` stands for.
///
/// Where the chain holds no error of this library, `e` is a bare root
/// made from `value`. Otherwise `e` is the first such error in the
/// chain, with the texts of the links before it around it as lines of
/// context, the outermost link outermost.
pub open spec fn rebuilt_from(e: ChainedError, value: anyhow::Error, chain: Seq<ChainLink>) -> bool {
    &&& (forall|i: int| 0 <= i < chain.len() ==> (#[trigger] chain[i]) is Context) ==> {
        &&& e.layers() == Seq::<Layer>::empty()
        &&& e.spec_root().inner() == value
        &&& e.spec_root().late_format().is_none()
    }
    &&& forall|b: int|
        0 <= b < chain.len() && (#[trigger] chain[b]) is Base && (forall|i: int|
            0 <= i < b ==> (#[trigger] chain[i]) is Context) ==> {
            &&& e.spec_root() == chain[b]->Base_0.spec_root()
            &&& e.layers() == contexts_of(chain.subrange(0, b)) + chain[b]->Base_0.layers()
        }
}

/// The error that a cause chain stands for, where `chain` is the chain
/// of `value`, outermost link first.
pub fn from_chain(value: anyhow::Error, chain: &Vec<ChainEntry>) -> (e: ChainedError)
    ensures
        rebuilt_from(e, value, links(chain@)),
{
    let n = chain.len();
    let mut found: usize = 0;
    while found < n && chain[found].is_context()
        invariant
            found <= n,
            n == chain@.len(),
            forall|i: int| 0 <= i < found ==> (#[trigger] links(chain@)[i]) is Context,
        decreases n - found,
    {
        found = found + 1;
    }
    if found == n {
        return ChainedError::new_from_arc(Arc::new(value), None);
    }
    let ghost all = links(chain@);
    let mut e = match &chain[found] {
        ChainEntry::Base(base) => base.clone(),
        ChainEntry::Context(_) => ChainedError::new_from_arc(Arc::new(value), None),
    };
    let ghost base = all[found as int]->Base_0;
    let mut at: usize = found;
    proof {
        assert(all[found as int] is Base);
        assert(contexts_of(all.subrange(found as int, found as int)) =~= Seq::<Layer>::empty());
        assert(contexts_of(all.subrange(found as int, found as int)) + base.layers()
            =~= base.layers());
    }
    while at > 0
        invariant
            at <= found < n,
            n == chain@.len(),
            all == links(chain@),
            all[found as int] == ChainLink::Base(base),
            forall|i: int| 0 <= i < found ==> (#[trigger] all[i]) is Context,
            e.spec_root() == base.spec_root(),
            e.layers() == contexts_of(all.subrange(at as int, found as int)) + base.layers(),
        decreases at,
    {
        at = at - 1;
        let ghost inner = e;
        match &chain[at] {
            ChainEntry::Context(text) => {
                e = e.context(text.as_str());
            },
            ChainEntry::Base(_) => {
                proof {
                    assert(all[at as int] is Context);
                }
            },
        }
        proof {
            assert(all[at as int] is Context);
            let now = contexts_of(all.subrange(at as int, found as int));
            let was = contexts_of(all.subrange(at + 1, found as int));
            assert(now =~= seq![Layer::Context(all[at as int]->Context_0)] + was);
            assert(e.layers() =~= now + base.layers());
        }
    }
    proof {
        assert forall|b: int|
            0 <= b < all.len() && (#[trigger] all[b]) is Base && (forall|i: int|
                0 <= i < b ==> (#[trigger] all[i]) is Context) implies b == found by {
            if b < found {
                assert(all[b] is Context);
            } else if found < b {
                assert(all[found as int] is Context);
            }
        }
        assert(all[found as int] is Base);
    }
    e
}

/// The error of this library that an `anyhow::Error` stands for.
///
/// An `anyhow::Error` that was made from an error of this library, and
/// was perhaps given more context since, is turned back into that
/// error, with the added context as context of its own. Any other is
/// taken as the root of a new error.
pub fn from_anyhow_for_crate(value: anyhow::Error) -> (e: ChainedError)
    ensures
        rebuilt_from(e, value, chain_of(value)),
        e.headline() == displayed(value),
{
    let n = chain_len(&value);
    let mut chain: Vec<ChainEntry> = Vec::new();
    let mut i: usize = 0;
    while i < n
        invariant
            i <= n,
            n == chain_of(value).len(),
            chain@.len() == i,
            forall|j: int| 0 <= j < i ==> (#[trigger] chain@[j])@ == chain_of(value)[j],
            i > 0 ==> link_text(chain_of(value)[0]) == displayed(value),
        decreases n - i,
    {
        let entry = chain_entry(&value, i);
        chain.push(entry);
        i = i + 1;
    }
    proof {
        assert(links(chain@) =~= chain_of(value));
    }
    let e = from_chain(value, &chain);
    proof {
        lemma_rebuilt_headline(e, value, chain_of(value));
    }
    e
}

/// The text of the outermost layer, told from the layers and the root:
/// the outermost line of context, and what the root's error displays
/// where there is none.
pub open spec fn headline_from(layers: Seq<Layer>, root: ErrorRoot) -> Seq<char>
    decreases layers.len(),
{
    if layers.len() == 0 {
        displayed(root.inner())
    } else {
        match layers[0] {
            Layer::Context(text) => text,
            Layer::Emitted => headline_from(layers.subrange(1, layers.len() as int), root),
        }
    }
}

/// The text of an error's outermost layer is told by its layers and
/// its root.
pub proof fn lemma_headline(e: ChainedError)
    ensures
        e.headline() == headline_from(e.layers(), e.spec_root()),
    decreases e,
{
    match *e.0 {
        ErrorKind::Root(_) => {},
        ErrorKind::WithContext(c, inner) => {
            assert(e.layers()[0] == Layer::Context(c@));
        },
        ErrorKind::Emitted(inner) => {
            lemma_headline(inner);
            assert(e.layers()[0] == Layer::Emitted);
            assert(e.layers().subrange(1, e.layers().len() as int) =~= inner.layers());
        },
    }
}

/// The error that a cause chain stands for displays what the first link
/// of the chain displays, and what the whole displays where the chain
/// holds no error of this library.
pub proof fn lemma_rebuilt_headline(e: ChainedError, value: anyhow::Error, chain: Seq<ChainLink>)
    requires
        rebuilt_from(e, value, chain),
        chain.len() >= 1,
    ensures
        (forall|i: int| 0 <= i < chain.len() ==> (#[trigger] chain[i]) is Context)
            ==> e.headline() == displayed(value),
        (exists|i: int| 0 <= i < chain.len() && (#[trigger] chain[i]) is Base) ==> e.headline()
            == link_text(chain[0]),
{
    lemma_headline(e);
    if exists|i: int| 0 <= i < chain.len() && (#[trigger] chain[i]) is Base {
        let some = choose|i: int| 0 <= i < chain.len() && (#[trigger] chain[i]) is Base;
        let b = lemma_first_base(chain, some);
        let base = chain[b]->Base_0;
        lemma_headline(base);
        assert(e.layers() == contexts_of(chain.subrange(0, b)) + base.layers());
        if b > 0 {
            assert(chain[0] is Context);
            assert(contexts_of(chain.subrange(0, b))[0] == Layer::Context(chain[0]->Context_0));
            assert(e.layers()[0] == Layer::Context(chain[0]->Context_0));
        } else {
            assert(contexts_of(chain.subrange(0, 0)) =~= Seq::<Layer>::empty());
            assert(e.layers() =~= base.layers());
        }
    }
}

/// The first error of this library in a chain that holds one.
proof fn lemma_first_base(chain: Seq<ChainLink>, some: int) -> (b: int)
    requires
        0 <= some < chain.len(),
        chain[some] is Base,
    ensures
        0 <= b <= some,
        chain[b] is Base,
        forall|i: int| 0 <= i < b ==> (#[trigger] chain[i]) is Context,
    decreases some,
{
    if forall|i: int| 0 <= i < some ==> (#[trigger] chain[i]) is Context {
        some
    } else {
        let earlier = choose|i: int| 0 <= i < some && !((#[trigger] chain[i]) is Context);
        lemma_first_base(chain, earlier)
    }
}

impl ChainedError {
    /// The text of the error's outermost layer: its outermost line of
    /// context, or, where it has none, what the error at its root
    /// displays.
    pub open spec fn headline(&self) -> Seq<char>
        decreases self,
    {
        match *self.0 {
            ErrorKind::Root(r) => displayed(r.inner()),
            ErrorKind::WithContext(c, _) => c@,
            ErrorKind::Emitted(inner) => inner.headline(),
        }
    }

    /// The text of the error's outermost layer.
    pub fn display_text(&self) -> (text: String)
        ensures
            text@ == self.headline(),
        decreases self,
    {
        match &*self.0 {
            ErrorKind::Root(r) => r.display_text(),
            ErrorKind::WithContext(c, _) => c.clone(),
            ErrorKind::Emitted(inner) => inner.display_text(),
        }
    }
}

/// Writes `text` to the formatter, by `Formatter::write_str`.
#[verifier::external_body]
pub(crate) fn write_text(f: &mut core::fmt::Formatter<'_>, text: &str) -> (r: Result<
    (),
    core::fmt::Error,
>) {
    f.write_str(text)
}

impl core::fmt::Display for ChainedError {
    /// Writes the text of the outermost layer.
    fn fmt(&self, f: &mut core::fmt::Formatter<'_>) -> (r: Result<(), core::fmt::Error>) {
        let text = self.display_text();
        write_text(f, text.as_str())
    }
}

impl std::error::Error for ChainedError {

}

impl From<anyhow::Error> for ChainedError {
    /// The error of this library that `value` stands for, as
    /// `from_anyhow_for_crate` gives and states it.
    fn from(value: anyhow::Error) -> (e: ChainedError) {
        from_anyhow_for_crate(value)
    }
}

/// Nothing is claimed of `from` by way of a function of its argument:
/// the result is fixed by its layers and its root, not as a value.
impl vstd::std_specs::convert::FromSpecImpl<anyhow::Error> for ChainedError {
    open spec fn obeys_from_spec() -> bool {
        false
    }

    open spec fn from_spec(value: anyhow::Error) -> ChainedError {
        arbitrary()
    }
}

/// The cause chain that stands for an error is its outer lines of
/// context followed by one error of this library, from which the
/// layers and the root of the error are told.
pub proof fn lemma_links_of(e: ChainedError)
    ensures
        e.links_of().len() >= 1,
        forall|i: int| 0 <= i < e.links_of().len() - 1 ==> (#[trigger] e.links_of()[i]) is Context,
        e.links_of().last() is Base,
        e.layers() == contexts_of(e.links_of().drop_last()) + e.links_of().last()->Base_0.layers(),
        e.spec_root() == e.links_of().last()->Base_0.spec_root(),
    decreases e,
{
    match *e.0 {
        ErrorKind::WithContext(c, inner) => {
            lemma_links_of(inner);
            let links = e.links_of();
            let below = inner.links_of();
            assert(links == seq![ChainLink::Context(c@)] + below);
            assert(links.last() == below.last());
            assert forall|i: int| 0 <= i < links.len() - 1 implies (#[trigger] links[i]) is Context by {
                if i > 0 {
                    assert(links[i] == below[i - 1]);
                }
            }
            assert(contexts_of(links.drop_last()) =~= seq![Layer::Context(c@)] + contexts_of(
                below.drop_last(),
            )) by {
                assert(links.drop_last() =~= seq![ChainLink::Context(c@)] + below.drop_last());
            }
            assert(e.layers() =~= contexts_of(links.drop_last()) + links.last()->Base_0.layers());
        },
        _ => {
            let links = e.links_of();
            assert(links.drop_last() =~= Seq::<ChainLink>::empty());
            assert(contexts_of(links.drop_last()) =~= Seq::<Layer>::empty());
            assert(e.layers() =~= contexts_of(links.drop_last()) + e.layers());
        },
    }
}

/// An error that went into an `anyhow::Error` by `into_anyhow` comes
/// back out of it as it went in, layer by layer and with its root.
pub proof fn law_into_anyhow_comes_back(e: ChainedError, through: anyhow::Error, back: ChainedError)
    requires
        chain_of(through) == e.links_of(),
        rebuilt_from(back, through, chain_of(through)),
    ensures
        back.spec_root() == e.spec_root(),
        back.layers() == e.layers(),
{
    lemma_links_of(e);
    let chain = chain_of(through);
    let b = chain.len() - 1;
    assert(chain[b] == chain.last());
    assert(chain.subrange(0, b) =~= chain.drop_last());
}

/// Closes the set of error types that count as errors of this library.
pub trait Sealed {

}

/// An error type that turns into an error of this library: the
/// library's own, and `anyhow::Error`.
pub trait AnyError: Sealed + Into<ChainedError> + Sync + Send + 'static {

}

impl Sealed for ChainedError {

}

impl AnyError for ChainedError {

}

impl Sealed for anyhow::Error {

}

impl AnyError for anyhow::Error {

}

/// An error that went into an `anyhow::Error`, alone or under one more
/// line of context, comes back out as it went in, with that line as its
/// outermost context.
pub proof fn law_round_trip(
    e: ChainedError,
    through: anyhow::Error,
    back: ChainedError,
    added: Seq<Seq<char>>,
)
    requires
        chain_of(through).len() > added.len(),
        forall|i: int| 0 <= i < added.len() ==> chain_of(through)[i] == ChainLink::Context(added[i]),
        chain_of(through)[added.len() as int] == ChainLink::Base(e),
        rebuilt_from(back, through, chain_of(through)),
    ensures
        back.spec_root() == e.spec_root(),
        back.layers() == Seq::new(added.len(), |i: int| Layer::Context(added[i])) + e.layers(),
{
    let chain = chain_of(through);
    let b = added.len() as int;
    assert(chain[b] is Base);
    assert forall|i: int| 0 <= i < b implies (#[trigger] chain[i]) is Context by {}
    assert(contexts_of(chain.subrange(0, b)) =~= Seq::new(
        added.len(),
        |i: int| Layer::Context(added[i]),
    ));
}

} // verus!
