//! Editor view identity (kind and per-instance id) and the small value types
//! of the view lifecycle.

use vstd::prelude::*;

use crate::text::{decimal, decimal_text, join, owned};

verus! {

/// What kind of view this is (e.g. `"map_editor"`, `"asset_browser"`).
///
/// Deliberately an open string, not a closed enum: the set of view kinds
/// grows as editor features are added.
#[derive(Debug, PartialEq, Eq, Hash, PartialOrd, Ord)]
pub struct ViewKind(String);

impl View for ViewKind {
    type V = Seq<char>;

    closed spec fn view(&self) -> Seq<char> {
        self.0@
    }
}

impl ViewKind {
    pub fn new(raw: &str) -> (k: Self)
        ensures
            k@ == raw@,
    {
        ViewKind(owned(raw))
    }

    pub fn as_str(&self) -> (s: &str)
        ensures
            s@ == self@,
    {
        self.0.as_str()
    }
}

impl Clone for ViewKind {
    fn clone(&self) -> (r: Self)
        ensures
            r@ == self@,
    {
        ViewKind(self.0.clone())
    }
}

/// The identity of one open view instance, distinct from its [`ViewKind`]:
/// two views of the same kind never share an id.
#[derive(Debug, Clone, Copy, PartialEq, Eq, Hash, PartialOrd, Ord)]
pub struct ViewId(u64);

impl View for ViewId {
    type V = u64;

    closed spec fn view(&self) -> u64 {
        self.0
    }
}

impl ViewId {
    /// Allocates a new id from `ids`, unique among the ids that allocator
    /// hands out. The value means nothing beyond uniqueness; do not persist
    /// it across runs.
    pub fn new(ids: &mut ViewIdAllocator) -> (id: ViewId)
        ensures
            id@ == old(ids).next_id(),
            final(ids).next_id() == old(ids).next_id().wrapping_add(1),
    {
        ids.allocate()
    }

    /// `view#<n>`, what `Display` prints.
    pub fn to_string(&self) -> (s: String)
        ensures
            s@ == "view#"@ + decimal_text(self@),
    {
        let n = decimal(self.0);
        join(owned("view#"), n.as_str())
    }
}

/// Hands out view ids in sequence. The process-wide allocator lives with
/// the workspace; the value carries no meaning beyond uniqueness and is
/// never persisted.
#[derive(Debug)]
pub struct ViewIdAllocator {
    next: u64,
}

impl ViewIdAllocator {
    /// The id the next allocation returns.
    pub closed spec fn next_id(&self) -> u64 {
        self.next
    }

    /// An allocator starting at zero.
    pub fn new() -> (a: Self)
        ensures
            a.next_id() == 0,
    {
        ViewIdAllocator { next: 0 }
    }

    /// A fresh id; the counter advances by one, wrapping as an atomic
    /// counter does.
    pub fn allocate(&mut self) -> (id: ViewId)
        ensures
            id@ == old(self).next_id(),
            final(self).next_id() == old(self).next_id().wrapping_add(1),
    {
        let id = ViewId(self.next);
        self.next = self.next.wrapping_add(1);
        id
    }
}

/// The id the allocation number `k` (counting from zero) of an allocator
/// whose next id is `start` returns: each allocation advances the counter
/// by one, wrapping as an atomic counter does.
pub open spec fn nth_id(start: u64, k: nat) -> u64
    decreases k,
{
    if k == 0 {
        start
    } else {
        nth_id(start, (k - 1) as nat).wrapping_add(1)
    }
}

/// Two successive allocations from one allocator never return the same id:
/// the second allocation sees the counter the first one advanced.
pub proof fn law_successive_ids_differ(ids: ViewIdAllocator)
    ensures
        ids.next_id() != ids.next_id().wrapping_add(1),
{
}

proof fn lemma_nth_id(start: u64, k: nat)
    ensures
        nth_id(start, k) as int == (start + k) % 0x1_0000_0000_0000_0000int,
    decreases k,
{
    let m = 0x1_0000_0000_0000_0000int;
    if k == 0 {
        vstd::arithmetic::div_mod::lemma_small_mod(start as nat, m as nat);
    } else {
        lemma_nth_id(start, (k - 1) as nat);
        let x = nth_id(start, (k - 1) as nat);
        vstd::arithmetic::div_mod::lemma_add_mod_noop(start + k - 1, 1, m);
        vstd::arithmetic::div_mod::lemma_small_mod(1, m as nat);
        if x + 1 < m {
            vstd::arithmetic::div_mod::lemma_small_mod((x + 1) as nat, m as nat);
        } else {
            vstd::arithmetic::div_mod::lemma_mod_self_0(m);
        }
    }
}

/// Ids drawn from one allocator are pairwise distinct: allocations `i` and
/// `j` differ for any `i < j` within one full turn of the 64-bit counter.
pub proof fn law_ids_from_one_allocator_differ(start: u64, i: nat, j: nat)
    requires
        i < j,
        j - i < 0x1_0000_0000_0000_0000int,
    ensures
        nth_id(start, i) != nth_id(start, j),
{
    let m = 0x1_0000_0000_0000_0000int;
    lemma_nth_id(start, i);
    lemma_nth_id(start, j);
    vstd::arithmetic::div_mod::lemma_mod_equivalence(start + j, start + i, m);
    vstd::arithmetic::div_mod::lemma_small_mod((j - i) as nat, m as nat);
    assert((start + j) - (start + i) == j - i);
}

/// A view's answer to "can you close right now?".
#[derive(Debug, Clone, Copy, PartialEq, Eq)]
pub enum CloseResponse {
    /// Nothing unsaved; the workspace may close this view immediately.
    Allow,
    /// Unsaved changes or an in-progress operation; the workspace should
    /// prompt the user rather than close silently.
    Block,
}

/// Failure reporting for view state (de)serialization.
#[derive(Debug, Clone, PartialEq, Eq)]
pub enum ViewStateError {
    Serialize(String),
    Restore(String),
}

impl ViewStateError {
    /// Human-readable description of the failure.
    pub fn message(&self) -> (m: String)
        ensures
            m@ == match self {
                ViewStateError::Serialize(d) => "failed to serialize view state: "@ + d@,
                ViewStateError::Restore(d) => "failed to restore view state: "@ + d@,
            },
    {
        match self {
            ViewStateError::Serialize(d) => join(owned("failed to serialize view state: "), d.as_str()),
            ViewStateError::Restore(d) => join(owned("failed to restore view state: "), d.as_str()),
        }
    }
}

/// Registration-time facts about a view kind, independent of any one open
/// instance.
#[derive(Debug, Clone)]
pub struct ViewDescriptor {
    pub kind: ViewKind,
    /// Human-readable name shown wherever the workspace lists view kinds.
    pub display_name: &'static str,
    /// At most one open instance of this kind at a time.
    pub singleton: bool,
}

} // verus!
