//! A snapshot of candidate strings fetched from the server, kept between
//! completions.

use vstd::prelude::*;
use crate::text::{chars_of, starts_with};
use crate::token::has_prefix_at;

verus! {

/// The set of texts that occur in `items`.
pub open spec fn text_set(items: Seq<String>) -> Set<Seq<char>> {
    Set::new(|text: Seq<char>| exists|i: int| 0 <= i < items.len() && (#[trigger] items[i])@ == text)
}

/// No text occurs twice in `items`.
pub open spec fn distinct_texts(items: Seq<String>) -> bool {
    forall|i: int, j: int| 0 <= i < j < items.len() ==> (#[trigger] items[i])@ != (#[trigger] items[j])@
}

/// A set of candidate strings. Either nothing has been stored in it, or it
/// holds one complete snapshot, which may be empty: it only ever changes as a
/// whole.
#[derive(Debug)]
pub struct CompletionCache {
    items: Vec<String>,
    filled: bool,
}

impl View for CompletionCache {
    type V = Set<Seq<char>>;

    closed spec fn view(&self) -> Set<Seq<char>> {
        text_set(self.items@)
    }
}

/// Whether `text` occurs in `items`.
fn holds(items: &Vec<String>, text: &String) -> (r: bool)
    ensures
        r == text_set(items@).contains(text@),
{
    let mut i: usize = 0;
    while i < items.len()
        invariant
            i <= items.len(),
            forall|k: int| 0 <= k < i ==> (#[trigger] items@[k])@ != text@,
        decreases items.len() - i,
    {
        if items[i] == *text {
            return true;
        }
        i += 1;
    }
    false
}

impl CompletionCache {
    /// The representation holds no text twice, and holds none before a
    /// snapshot is stored.
    #[verifier::type_invariant]
    spec fn wf(&self) -> bool {
        distinct_texts(self.items@) && (!self.filled ==> self.items@.len() == 0)
    }

    /// A snapshot has been stored and not been cleared since.
    pub closed spec fn is_filled(&self) -> bool {
        self.filled
    }

    /// A cache in which nothing has been stored.
    pub fn new() -> (r: Self)
        ensures
            r@ == Set::<Seq<char>>::empty(),
            !r.is_filled(),
    {
        let r = CompletionCache { items: Vec::new(), filled: false };
        proof {
            assert(r@ =~= Set::<Seq<char>>::empty());
        }
        r
    }

    /// Replaces the whole content by the texts of `items`.
    pub fn replace_all(&mut self, items: Vec<String>)
        ensures
            final(self)@ == text_set(items@),
            final(self).is_filled(),
    {
        let mut kept: Vec<String> = Vec::new();
        let mut i: usize = 0;
        while i < items.len()
            invariant
                i <= items.len(),
                distinct_texts(kept@),
                text_set(kept@) == text_set(items@.take(i as int)),
            decreases items.len() - i,
        {
            let ghost before = kept@;
            let ghost prefix = items@.take(i as int);
            let ghost longer = items@.take(i + 1);
            let fresh = !holds(&kept, &items[i]);
            if fresh {
                kept.push(items[i].clone());
            }
            proof {
                let text = items@[i as int]@;
                assert(longer[i as int] == items@[i as int]);
                assert forall|t: Seq<char>| text_set(kept@).contains(t) == text_set(longer).contains(
                    t,
                ) by {
                    if text_set(kept@).contains(t) {
                        let k = choose|k: int| 0 <= k < kept@.len() && (#[trigger] kept@[k])@ == t;
                        if k < before.len() {
                            assert(before[k] == kept@[k]);
                            assert(text_set(prefix).contains(t));
                            let p = choose|p: int| 0 <= p < prefix.len() && (#[trigger] prefix[p])@ == t;
                            assert(longer[p] == prefix[p]);
                        }
                    }
                    if text_set(longer).contains(t) {
                        let p = choose|p: int| 0 <= p < longer.len() && (#[trigger] longer[p])@ == t;
                        if p < i {
                            assert(prefix[p] == longer[p]);
                            assert(text_set(before).contains(t));
                            let k = choose|k: int| 0 <= k < before.len() && (#[trigger] before[k])@ == t;
                            assert(kept@[k] == before[k]);
                        } else if fresh {
                            assert(kept@[before.len() as int]@ == t);
                        } else {
                            let k = choose|k: int| 0 <= k < before.len() && (#[trigger] before[k])@ == t;
                            assert(kept@[k] == before[k]);
                        }
                    }
                }
                assert(text_set(kept@) =~= text_set(longer));
            }
            i += 1;
        }
        proof {
            assert(items@.take(i as int) == items@);
        }
        *self = CompletionCache { items: kept, filled: true };
    }

    /// The texts of the cache, each once, in no particular order.
    pub fn snapshot(&self) -> (r: Vec<String>)
        ensures
            distinct_texts(r@),
            text_set(r@) == self@,
    {
        proof {
            use_type_invariant(self);
        }
        let mut copy: Vec<String> = Vec::new();
        let mut i: usize = 0;
        while i < self.items.len()
            invariant
                i <= self.items.len(),
                copy@.len() == i,
                forall|k: int| 0 <= k < i ==> (#[trigger] copy@[k])@ == self.items@[k]@,
            decreases self.items.len() - i,
        {
            copy.push(self.items[i].clone());
            i += 1;
        }
        proof {
            assert(text_set(copy@) =~= text_set(self.items@)) by {
                assert forall|t: Seq<char>| text_set(copy@).contains(t) == text_set(
                    self.items@,
                ).contains(t) by {
                    if text_set(copy@).contains(t) {
                        let k = choose|k: int| 0 <= k < copy@.len() && (#[trigger] copy@[k])@ == t;
                        assert(self.items@[k]@ == t);
                    }
                    if text_set(self.items@).contains(t) {
                        let k = choose|k: int|
                            0 <= k < self.items@.len() && (#[trigger] self.items@[k])@ == t;
                        assert(copy@[k]@ == t);
                    }
                }
            }
        }
        copy
    }

    /// Whether the cache holds nothing.
    pub fn is_empty(&self) -> (r: bool)
        ensures
            r == (self@ == Set::<Seq<char>>::empty()),
    {
        proof {
            if self.items@.len() > 0 {
                assert(text_set(self.items@).contains(self.items@[0]@));
            } else {
                assert(self@ =~= Set::<Seq<char>>::empty());
            }
        }
        self.items.len() == 0
    }

    /// Forgets the snapshot: the cache is as if nothing had been stored.
    pub fn clear(&mut self)
        ensures
            final(self)@ == Set::<Seq<char>>::empty(),
            !final(self).is_filled(),
    {
        *self = CompletionCache { items: Vec::new(), filled: false };
        proof {
            assert(self@ =~= Set::<Seq<char>>::empty());
        }
    }
}

/// A partial word of at most this many characters starts a fresh lookup.
pub const REFRESH_THRESHOLD: usize = 1;

impl CompletionCache {
    /// Whether a snapshot has been stored and not been cleared since.
    pub fn filled(&self) -> (r: bool)
        ensures
            r == self.is_filled(),
    {
        self.filled
    }

    /// Whether the candidates are to be fetched anew before `partial` is
    /// completed: when the word is empty or very short, or when no snapshot
    /// has been stored.
    pub fn needs_refresh(&self, partial: &str) -> (r: bool)
        ensures
            r == (partial@.len() <= REFRESH_THRESHOLD || !self.is_filled()),
    {
        partial.unicode_len() <= REFRESH_THRESHOLD || !self.filled
    }

    /// Takes what a fetch returned: a list replaces the whole content, and a
    /// failed fetch leaves the cache as it was.
    pub fn refresh(&mut self, fetched: Option<Vec<String>>)
        ensures
            final(self)@ == match fetched {
                Some(items) => text_set(items@),
                None => old(self)@,
            },
            final(self).is_filled() == (fetched is Some || old(self).is_filled()),
    {
        match fetched {
            Some(items) => self.replace_all(items),
            None => {},
        }
    }

    /// The names of the snapshot that start with `partial`, each once.
    pub fn matching(&self, partial: &str) -> (r: Vec<String>)
        ensures
            distinct_texts(r@),
            forall|text: Seq<char>|
                text_set(r@).contains(text) <==> self@.contains(text) && starts_with(
                    text,
                    partial@,
                ),
    {
        proof {
            use_type_invariant(self);
        }
        let wanted = chars_of(partial);
        let mut found: Vec<String> = Vec::new();
        let ghost mut origin: Seq<int> = Seq::empty();
        let mut i: usize = 0;
        while i < self.items.len()
            invariant
                i <= self.items.len(),
                wanted@ == partial@,
                distinct_texts(self.items@),
                origin.len() == found@.len(),
                forall|k: int|
                    0 <= k < found@.len() ==> 0 <= #[trigger] origin[k] < i && found@[k]@
                        == self.items@[origin[k]]@ && starts_with(found@[k]@, partial@),
                forall|a: int, b: int|
                    0 <= a < b < found@.len() ==> #[trigger] origin[a] < #[trigger] origin[b],
                forall|j: int|
                    0 <= j < i && starts_with((#[trigger] self.items@[j])@, partial@) ==> text_set(
                        found@,
                    ).contains(self.items@[j]@),
            decreases self.items.len() - i,
        {
            let text = chars_of(self.items[i].as_str());
            proof {
                assert(text@.skip(0) == text@);
            }
            if has_prefix_at(text.as_slice(), 0, wanted.as_slice()) {
                let ghost before = found@;
                found.push(self.items[i].clone());
                proof {
                    origin = origin.push(i as int);
                    assert forall|j: int|
                        0 <= j <= i && starts_with(
                            (#[trigger] self.items@[j])@,
                            partial@,
                        ) implies text_set(found@).contains(self.items@[j]@) by {
                        if j < i {
                            let k = choose|k: int|
                                0 <= k < before.len() && (#[trigger] before[k])@
                                    == self.items@[j]@;
                            assert(found@[k] == before[k]);
                        } else {
                            assert(found@[before.len() as int]@ == self.items@[j]@);
                        }
                    }
                }
            }
            i += 1;
        }
        proof {
            assert forall|a: int, b: int| 0 <= a < b < found@.len() implies (#[trigger] found@[a])@
                != (#[trigger] found@[b])@ by {
                assert(origin[a] < origin[b]);
            }
            assert forall|text: Seq<char>|
                text_set(found@).contains(text) <==> self@.contains(text) && starts_with(
                    text,
                    partial@,
                ) by {
                if text_set(found@).contains(text) {
                    let k = choose|k: int| 0 <= k < found@.len() && (#[trigger] found@[k])@ == text;
                    assert(self.items@[origin[k]]@ == text);
                }
                if self@.contains(text) && starts_with(text, partial@) {
                    let j = choose|j: int|
                        0 <= j < self.items@.len() && (#[trigger] self.items@[j])@ == text;
                    assert(starts_with(self.items@[j]@, partial@));
                }
            }
        }
        found
    }

    /// The candidates for `partial` once the fetch that [`needs_refresh`]
    /// asked for has been made: the names that the fetch returned and that
    /// start with `partial`, which replace the snapshot; none after a failed
    /// fetch, which leaves the snapshot as it was.
    ///
    /// [`needs_refresh`]: CompletionCache::needs_refresh
    pub fn complete_fetched(&mut self, partial: &str, fetched: Option<Vec<String>>) -> (r: Vec<
        String,
    >)
        ensures
            final(self)@ == match fetched {
                Some(items) => text_set(items@),
                None => old(self)@,
            },
            final(self).is_filled() == (fetched is Some || old(self).is_filled()),
            distinct_texts(r@),
            forall|text: Seq<char>|
                text_set(r@).contains(text) <==> fetched is Some && final(self)@.contains(text)
                    && starts_with(text, partial@),
    {
        match fetched {
            Some(items) => {
                self.replace_all(items);
                self.matching(partial)
            },
            None => {
                let none: Vec<String> = Vec::new();
                none
            },
        }
    }
}

} // verus!
