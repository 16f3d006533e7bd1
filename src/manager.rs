use vstd::prelude::*;

use crate::handler::Tagged;

verus! {

/// Startup errors of a registry.
#[derive(Clone, Copy, Debug, PartialEq, Eq, Structural)]
pub enum ConfigError {
    /// Two entries carry the same tag.
    DuplicateTag,
    /// An entry supports neither transport.
    NoTransport,
}

/// An immutable registry of handlers keyed by their tags.
pub struct Manager<H> {
    pub handlers: Vec<H>,
}

pub open spec fn tags_unique<H: Tagged>(hs: Seq<H>) -> bool {
    forall|i: int, j: int|
        0 <= i < j < hs.len() ==> #[trigger] hs[i].tag_view() != #[trigger] hs[j].tag_view()
}

pub open spec fn all_usable<H: Tagged>(hs: Seq<H>) -> bool {
    forall|i: int| 0 <= i < hs.len() ==> #[trigger] hs[i].usable()
}

/// The index of the first entry at or after `k` tagged `t`.
pub open spec fn find_tag_from<H: Tagged>(hs: Seq<H>, t: Seq<char>, k: int) -> Option<int>
    decreases hs.len() - k,
{
    if k < 0 || k >= hs.len() {
        None
    } else if hs[k].tag_view() == t {
        Some(k)
    } else {
        find_tag_from(hs, t, k + 1)
    }
}

/// The index of the first entry tagged `t`, if any.
pub open spec fn find_tag<H: Tagged>(hs: Seq<H>, t: Seq<char>) -> Option<int> {
    find_tag_from(hs, t, 0)
}

pub proof fn lemma_find_tag_from<H: Tagged>(hs: Seq<H>, t: Seq<char>, k: int)
    requires
        0 <= k,
    ensures
        find_tag_from(hs, t, k) matches Some(i) ==> k <= i < hs.len() && hs[i].tag_view() == t,
        find_tag_from(hs, t, k) is None <==> forall|j: int|
            k <= j < hs.len() ==> #[trigger] hs[j].tag_view() != t,
    decreases hs.len() - k,
{
    if k < hs.len() && hs[k].tag_view() != t {
        lemma_find_tag_from(hs, t, k + 1);
    }
}

/// A tag that no entry carries is not found.
pub proof fn lemma_unregistered_tag_not_found<H: Tagged>(hs: Seq<H>, t: Seq<char>)
    requires
        forall|j: int| 0 <= j < hs.len() ==> #[trigger] hs[j].tag_view() != t,
    ensures
        find_tag(hs, t) is None,
{
    lemma_find_tag_from(hs, t, 0);
}

/// In a registry whose tags are unique, the entry tagged `t` is the one found.
pub proof fn lemma_registered_tag_found<H: Tagged>(hs: Seq<H>, t: Seq<char>, k: int)
    requires
        tags_unique(hs),
        0 <= k < hs.len(),
        hs[k].tag_view() == t,
    ensures
        find_tag(hs, t) == Some(k),
{
    lemma_find_tag_from(hs, t, 0);
    let i = find_tag(hs, t)->Some_0;
    if i < k {
        assert(hs[i].tag_view() != hs[k].tag_view());
    } else if k < i {
        assert(hs[k].tag_view() != hs[i].tag_view());
    }
}

impl<H: Tagged> Manager<H> {
    pub open spec fn wf(&self) -> bool {
        tags_unique(self.handlers@) && all_usable(self.handlers@)
    }

    /// Builds the registry; refuses an entry with no transport and a repeated tag.
    pub fn new(handlers: Vec<H>) -> (r: Result<Manager<H>, ConfigError>)
        ensures
            r is Ok <==> (tags_unique(handlers@) && all_usable(handlers@)),
            r matches Ok(m) ==> m.handlers@ == handlers@ && m.wf(),
            r == Err::<Manager<H>, ConfigError>(ConfigError::NoTransport) ==> !all_usable(
                handlers@,
            ),
            r == Err::<Manager<H>, ConfigError>(ConfigError::DuplicateTag) ==> !tags_unique(
                handlers@,
            ),
    {
        let n = handlers.len();
        let mut i: usize = 0;
        while i < n
            invariant
                n == handlers@.len(),
                i <= n,
                forall|a: int| 0 <= a < i ==> #[trigger] handlers@[a].usable(),
                forall|a: int, b: int|
                    0 <= a < b < i ==> #[trigger] handlers@[a].tag_view()
                        != #[trigger] handlers@[b].tag_view(),
            decreases n - i,
        {
            if !handlers[i].has_transport() {
                return Err(ConfigError::NoTransport);
            }
            let mut j: usize = 0;
            while j < i
                invariant
                    n == handlers@.len(),
                    j <= i < n,
                    forall|a: int| 0 <= a < j ==> #[trigger] handlers@[a].tag_view()
                        != handlers@[i as int].tag_view(),
                decreases i - j,
            {
                if *handlers[j].tag() == *handlers[i].tag() {
                    return Err(ConfigError::DuplicateTag);
                }
                j = j + 1;
            }
            i = i + 1;
        }
        Ok(Manager { handlers })
    }

    /// The handler registered under `tag`, or `None` when no entry has it.
    pub fn lookup(&self, tag: &String) -> (r: Option<&H>)
        ensures
            match find_tag(self.handlers@, tag@) {
                Some(i) => r == Some(&self.handlers@[i]),
                None => r is None,
            },
            r matches Some(h) ==> h.tag_view() == tag@,
    {
        let mut i: usize = 0;
        while i < self.handlers.len()
            invariant
                i <= self.handlers@.len(),
                find_tag(self.handlers@, tag@) == find_tag_from(self.handlers@, tag@, i as int),
            decreases self.handlers@.len() - i,
        {
            if *self.handlers[i].tag() == *tag {
                return Some(&self.handlers[i]);
            }
            i = i + 1;
        }
        None
    }
}

} // verus!
