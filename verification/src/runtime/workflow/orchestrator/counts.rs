//! Pending counts as they are stored.
use vstd::prelude::*;
use vstd::string::*;
use vstd::utf8::*;

use crate::common::{ActantError, ARCHIVE_LIMIT};
use crate::keymap::KeyMap;

verus! {

/// The bytes that `rkyv::to_bytes` gives for a list of texts with numbers.
pub uninterp spec fn rkyv_counts_bytes(counts: Seq<(Seq<char>, u64)>) -> Option<Seq<u8>>;

/// The list of texts with numbers that `rkyv::from_bytes` reads from bytes.
pub uninterp spec fn rkyv_counts_value(bytes: Seq<u8>) -> Option<Seq<(Seq<char>, u64)>>;

/// Texts with their numbers.
pub open spec fn count_views(counts: Seq<(String, u64)>) -> Seq<(Seq<char>, u64)> {
    Seq::new(counts.len(), |i: int| (counts[i].0@, counts[i].1))
}

/// What an entry takes in an archive beside the bytes of its text.
pub const ENTRY_SIZE: u64 = 16;

/// An upper bound of what the entries of a list take in an archive.
pub open spec fn archive_size(counts: Seq<(Seq<char>, u64)>) -> int
    decreases counts.len(),
{
    if counts.len() == 0 {
        0
    } else {
        archive_size(counts.drop_last()) + ENTRY_SIZE + encode_utf8(counts.last().0).len()
    }
}

/// `rkyv::to_bytes` on a list of texts with numbers, which is short enough for it not to
/// panic. What it writes, `rkyv::from_bytes` reads back.
#[verifier::external_body]
fn rkyv_encode_counts(counts: &Vec<(String, u64)>) -> (r: Option<Vec<u8>>)
    requires
        archive_size(count_views(counts@)) <= ARCHIVE_LIMIT,
    ensures
        match r {
            Some(bytes) => rkyv_counts_bytes(count_views(counts@)) == Some(bytes@)
                && rkyv_counts_value(bytes@) == Some(count_views(counts@)),
            None => rkyv_counts_bytes(count_views(counts@)) is None,
        },
{
    rkyv::to_bytes::<rkyv::rancor::Error>(counts).ok().map(|b| b.to_vec())
}

/// `rkyv::from_bytes` on a copy of the bytes that is aligned as it demands.
#[verifier::external_body]
fn rkyv_decode_counts(bytes: &Vec<u8>) -> (r: Option<Vec<(String, u64)>>)
    ensures
        match r {
            Some(v) => rkyv_counts_value(bytes@) == Some(count_views(v@)),
            None => rkyv_counts_value(bytes@) is None,
        },
{
    let mut aligned = rkyv::util::AlignedVec::<16>::new();
    aligned.extend_from_slice(bytes);
    rkyv::from_bytes::<Vec<(String, u64)>, rkyv::rancor::Error>(&aligned).ok()
}

/// The counts of `m`, in the order of `order`.
pub open spec fn listed_counts(order: Seq<Seq<char>>, m: Map<Seq<char>, usize>) -> Seq<
    (Seq<char>, u64),
> {
    Seq::new(order.len(), |i: int| (order[i], m[order[i]] as u64))
}

/// Every number of the list can be counted to.
pub open spec fn countable(counts: Seq<(Seq<char>, u64)>) -> bool {
    forall|i: int| 0 <= i < counts.len() ==> (#[trigger] counts[i]).1 <= usize::MAX
}

/// The map that a list stands for. Of two entries for one text the later one counts.
pub open spec fn count_map(counts: Seq<(Seq<char>, u64)>) -> Map<Seq<char>, usize>
    decreases counts.len(),
{
    if counts.len() == 0 {
        Map::empty()
    } else {
        count_map(counts.drop_last()).insert(counts.last().0, counts.last().1 as usize)
    }
}

/// The pending counts that bytes hold.
pub open spec fn pending_of(bytes: Seq<u8>) -> Option<Map<Seq<char>, usize>> {
    match rkyv_counts_value(bytes) {
        Some(counts) => if countable(counts) {
            Some(count_map(counts))
        } else {
            None
        },
        None => None,
    }
}

/// A map is what the list of its counts stands for.
pub proof fn law_listed_counts_stand_for_the_map(
    order: Seq<Seq<char>>,
    m: Map<Seq<char>, usize>,
)
    requires
        order.no_duplicates(),
        order.to_set() == m.dom(),
    ensures
        countable(listed_counts(order, m)),
        count_map(listed_counts(order, m)) == m,
{
    lemma_count_map(order, m);
    let c = count_map(listed_counts(order, m));
    assert forall|k: Seq<char>| c.contains_key(k) <==> m.contains_key(k) by {
        assert(order.to_set().contains(k) <==> m.contains_key(k));
    }
    assert(c =~= m);
}

proof fn lemma_count_map(order: Seq<Seq<char>>, m: Map<Seq<char>, usize>)
    requires
        order.no_duplicates(),
    ensures
        countable(listed_counts(order, m)),
        forall|k: Seq<char>| #[trigger]
            count_map(listed_counts(order, m)).contains_key(k) <==> order.contains(k),
        forall|k: Seq<char>| #[trigger]
            order.contains(k) ==> count_map(listed_counts(order, m))[k] == m[k],
    decreases order.len(),
{
    if order.len() > 0 {
        let init = order.drop_last();
        lemma_count_map(init, m);
        assert(listed_counts(order, m).drop_last() =~= listed_counts(init, m));
        assert forall|k: Seq<char>| #[trigger]
            order.contains(k) <==> init.contains(k) || k == order.last() by {
            if order.contains(k) && k != order.last() {
                assert(init[order.index_of(k)] == k);
            }
            if init.contains(k) {
                assert(order[init.index_of(k)] == k);
            }
        }
        assert(!init.contains(order.last()));
        let c = count_map(listed_counts(init, m));
        assert forall|k: Seq<char>| #[trigger]
            count_map(listed_counts(order, m)).contains_key(k) <==> order.contains(k) by {
            assert(c.contains_key(k) <==> init.contains(k));
        }
    }
}

/// Pending counts as archived bytes, which hold them. Counts that are too long for an archive
/// are refused.
pub fn archive_pending(pending: &KeyMap<usize>) -> (r: Result<Vec<u8>, ActantError>)
    ensures
        ({
            let counts = listed_counts(pending.order(), pending@);
            match r {
                Ok(bytes) => {
                    &&& archive_size(counts) <= ARCHIVE_LIMIT
                    &&& rkyv_counts_bytes(counts) == Some(bytes@)
                    &&& pending_of(bytes@) == Some(pending@)
                },
                Err(e) => {
                    &&& e is Serialization
                    &&& archive_size(counts) <= ARCHIVE_LIMIT ==> rkyv_counts_bytes(counts) is None
                },
            }
        }),
{
    let n: usize = pending.len();
    let ghost all = listed_counts(pending.order(), pending@);
    let mut counts: Vec<(String, u64)> = Vec::new();
    let mut size: u64 = 0;
    let mut i: usize = 0;
    assert(count_views(counts@) =~= all.take(0));
    while i < n
        invariant
            i <= n,
            n == pending.order().len(),
            all == listed_counts(pending.order(), pending@),
            count_views(counts@) == all.take(i as int),
            size == archive_size(all.take(i as int)),
            size <= ARCHIVE_LIMIT,
        decreases n - i,
    {
        let key = pending.key_at(i);
        let length: u64 = key.as_str().as_bytes().len() as u64;
        proof {
            assert(all.take(i + 1).drop_last() =~= all.take(i as int));
            assert(all[i as int].0 == key@);
        }
        if length > ARCHIVE_LIMIT || size + ENTRY_SIZE + length > ARCHIVE_LIMIT {
            proof {
                lemma_archive_size_grows(all, i + 1);
            }
            return Err(ActantError::Serialization("pending counts are too long".to_owned()));
        }
        size = size + ENTRY_SIZE + length;
        let ghost before = counts@;
        counts.push((key.clone(), *pending.value_at(i) as u64));
        assert(count_views(counts@) =~= count_views(before).push(all[i as int]));
        assert(all.take(i + 1) =~= all.take(i as int).push(all[i as int]));
        i += 1;
    }
    assert(all.take(n as int) =~= all);
    match rkyv_encode_counts(&counts) {
        Some(bytes) => {
            proof {
                law_listed_counts_stand_for_the_map(pending.order(), pending@);
            }
            Ok(bytes)
        },
        None => Err(ActantError::Serialization("failed to serialize pending counts".to_owned())),
    }
}

proof fn lemma_archive_size_grows(counts: Seq<(Seq<char>, u64)>, n: int)
    requires
        0 <= n <= counts.len(),
    ensures
        archive_size(counts.take(n)) <= archive_size(counts),
    decreases counts.len(),
{
    if n == counts.len() {
        assert(counts.take(n) =~= counts);
    } else {
        lemma_archive_size_grows(counts.drop_last(), n);
        assert(counts.drop_last().take(n) =~= counts.take(n));
    }
}

/// The pending counts that archived bytes hold.
pub fn read_pending(bytes: &Vec<u8>) -> (r: Option<KeyMap<usize>>)
    ensures
        match r {
            Some(pending) => pending_of(bytes@) == Some(pending@),
            None => pending_of(bytes@) is None,
        },
{
    match rkyv_decode_counts(bytes) {
        Some(counts) => {
            let ghost all = count_views(counts@);
            let mut pending: KeyMap<usize> = KeyMap::new();
            let mut i: usize = 0;
            assert(pending@ =~= count_map(all.take(0)));
            while i < counts.len()
                invariant
                    i <= counts@.len(),
                    all == count_views(counts@),
                    rkyv_counts_value(bytes@) == Some(all),
                    countable(all.take(i as int)),
                    pending@ == count_map(all.take(i as int)),
                decreases counts@.len() - i,
            {
                proof {
                    assert(all.take(i + 1).drop_last() =~= all.take(i as int));
                    assert(all[i as int] == (counts@[i as int].0@, counts@[i as int].1));
                }
                if counts[i].1 > usize::MAX as u64 {
                    return None;
                }
                pending.insert(counts[i].0.clone(), counts[i].1 as usize);
                proof {
                    let next = all.take(i + 1);
                    assert forall|j: int| 0 <= j < next.len() implies (#[trigger] next[j]).1
                        <= usize::MAX by {
                        if j < i {
                            assert(all.take(i as int)[j] == next[j]);
                        }
                    }
                }
                i += 1;
            }
            assert(all.take(i as int) =~= all);
            Some(pending)
        },
        None => None,
    }
}

} // verus!
