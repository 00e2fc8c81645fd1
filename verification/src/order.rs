//! The order in which volumes are backed up: by identifier, so that a run
//! goes through them in the same order whatever order they were listed in.

use vstd::prelude::*;
use crate::text::chars_of;
use crate::volume::EncryptedVolume;

verus! {

/// Whether `a` comes before `b` in the order of a dictionary, given that
/// the two agree before position `from`.
pub open spec fn precedes_from(a: Seq<char>, b: Seq<char>, from: int) -> bool
    decreases a.len() - from,
{
    if from >= b.len() {
        false
    } else if from >= a.len() {
        true
    } else if a[from] != b[from] {
        (a[from] as u32) < (b[from] as u32)
    } else {
        precedes_from(a, b, from + 1)
    }
}

/// Whether `a` comes before `b` in the order of a dictionary: at the first
/// position where they differ `a` has the lower character, or `a` ends
/// where `b` goes on.
pub open spec fn precedes(a: Seq<char>, b: Seq<char>) -> bool {
    precedes_from(a, b, 0)
}

/// Of two texts that differ, one comes before the other.
pub proof fn lemma_precedes_total(a: Seq<char>, b: Seq<char>, from: int)
    requires
        0 <= from <= a.len(),
        from <= b.len(),
        forall|k: int| 0 <= k < from ==> a[k] == b[k],
    ensures
        precedes_from(a, b, from) || precedes_from(b, a, from) || a == b,
    decreases a.len() - from,
{
    if from >= a.len() || from >= b.len() {
        if from >= a.len() && from >= b.len() {
            assert(a =~= b);
        }
    } else if a[from] == b[from] {
        lemma_precedes_total(a, b, from + 1);
    } else {
        vstd::utf8::char_u32_cast(a[from], a[from] as u32);
        vstd::utf8::char_u32_cast(b[from], b[from] as u32);
    }
}

/// What comes before something that comes before a third comes before the third.
pub proof fn lemma_precedes_transitive(a: Seq<char>, b: Seq<char>, c: Seq<char>, from: int)
    requires
        0 <= from,
        precedes_from(a, b, from),
        precedes_from(b, c, from),
    ensures
        precedes_from(a, c, from),
    decreases a.len() - from,
{
    if from < a.len() && a[from] == b[from] && b[from] == c[from] {
        lemma_precedes_transitive(a, b, c, from + 1);
    }
}

/// The identifier of the volume at `position`.
pub open spec fn uuid_at(volumes: Seq<EncryptedVolume>, position: int) -> Seq<char> {
    volumes[position].uuid@
}

/// Whether the volume at `first` is backed up before the one at `second`:
/// its identifier comes first, or the identifiers are the same and it
/// stands first.
pub open spec fn goes_before(volumes: Seq<EncryptedVolume>, first: int, second: int) -> bool {
    precedes(uuid_at(volumes, first), uuid_at(volumes, second)) || (uuid_at(volumes, first)
        == uuid_at(volumes, second) && first < second)
}

/// Where in `order` the volume at `position` is put: before the first
/// volume at or after `from` whose identifier comes after its own.
pub open spec fn slot(
    volumes: Seq<EncryptedVolume>,
    order: Seq<usize>,
    position: int,
    from: int,
) -> int
    decreases order.len() - from,
{
    if from < 0 || from >= order.len() {
        order.len() as int
    } else if precedes(uuid_at(volumes, position), uuid_at(volumes, order[from] as int)) {
        from
    } else {
        slot(volumes, order, position, from + 1)
    }
}

/// The order of the first `count` volumes: their positions, sorted by
/// identifier.
pub open spec fn order_of_first(volumes: Seq<EncryptedVolume>, count: int) -> Seq<usize>
    decreases count,
{
    if count <= 0 {
        Seq::empty()
    } else {
        let earlier = order_of_first(volumes, count - 1);
        earlier.insert(slot(volumes, earlier, count - 1, 0), (count - 1) as usize)
    }
}

/// The order in which `volumes` are backed up: their positions, sorted by
/// identifier.
pub open spec fn build_order_of(volumes: Seq<EncryptedVolume>) -> Seq<usize> {
    order_of_first(volumes, volumes.len() as int)
}

/// A slot lies inside the order or at its end; what stands before it does
/// not come after the volume put there, and what stands at it does.
pub proof fn lemma_slot(volumes: Seq<EncryptedVolume>, order: Seq<usize>, position: int, from: int)
    requires
        0 <= from <= order.len(),
    ensures
        from <= slot(volumes, order, position, from) <= order.len(),
        forall|k: int|
            from <= k < slot(volumes, order, position, from) ==> !precedes(
                uuid_at(volumes, position),
                uuid_at(volumes, #[trigger] order[k] as int),
            ),
        slot(volumes, order, position, from) < order.len() ==> precedes(
            uuid_at(volumes, position),
            uuid_at(volumes, order[slot(volumes, order, position, from)] as int),
        ),
    decreases order.len() - from,
{
    if from < order.len() && !precedes(
        uuid_at(volumes, position),
        uuid_at(volumes, order[from] as int),
    ) {
        lemma_slot(volumes, order, position, from + 1);
    }
}

/// The order of the first `count` volumes holds each of their positions
/// once, and of two positions in it the earlier goes before the later.
pub proof fn lemma_order_is_sorted(volumes: Seq<EncryptedVolume>, count: int)
    requires
        0 <= count <= volumes.len(),
        count <= usize::MAX,
    ensures
        order_of_first(volumes, count).len() == count,
        forall|k: int|
            0 <= k < count ==> 0 <= #[trigger] order_of_first(volumes, count)[k] < count,
        forall|j: int, k: int|
            0 <= j < k < count ==> #[trigger] order_of_first(volumes, count)[j]
                != #[trigger] order_of_first(volumes, count)[k],
        forall|j: int, k: int|
            0 <= j < k < count ==> goes_before(
                volumes,
                #[trigger] order_of_first(volumes, count)[j] as int,
                #[trigger] order_of_first(volumes, count)[k] as int,
            ),
    decreases count,
{
    if count > 0 {
        let earlier = order_of_first(volumes, count - 1);
        let x = count - 1;
        let p = slot(volumes, earlier, x, 0);
        let order = order_of_first(volumes, count);
        lemma_order_is_sorted(volumes, count - 1);
        lemma_slot(volumes, earlier, x, 0);
        assert(order == earlier.insert(p, x as usize));
        assert forall|k: int| 0 <= k < count implies 0 <= #[trigger] order[k] < count by {
            if k < p {
                assert(order[k] == earlier[k]);
            } else if k > p {
                assert(order[k] == earlier[k - 1]);
            }
        }
        assert forall|j: int, k: int| 0 <= j < k < count implies #[trigger] order[j]
            != #[trigger] order[k] by {
            if j != p && k != p {
                let jj = if j < p {
                    j
                } else {
                    j - 1
                };
                let kk = if k < p {
                    k
                } else {
                    k - 1
                };
                assert(order[j] == earlier[jj] && order[k] == earlier[kk]);
            } else if j == p {
                assert(order[k] == earlier[k - 1]);
            } else {
                assert(order[j] == earlier[j]);
            }
        }
        assert forall|j: int, k: int| 0 <= j < k < count implies goes_before(
            volumes,
            #[trigger] order[j] as int,
            #[trigger] order[k] as int,
        ) by {
            if k < p {
                assert(order[j] == earlier[j] && order[k] == earlier[k]);
            } else if k == p {
                // what stands before the slot does not come after the new volume
                assert(order[j] == earlier[j]);
                assert(!precedes(uuid_at(volumes, x), uuid_at(volumes, earlier[j] as int)));
                lemma_precedes_total(uuid_at(volumes, x), uuid_at(volumes, earlier[j] as int), 0);
            } else if j == p {
                // the new volume comes before what stands at the slot and after it
                assert(order[k] == earlier[k - 1]);
                assert(precedes(uuid_at(volumes, x), uuid_at(volumes, earlier[p] as int)));
                if k - 1 > p {
                    assert(goes_before(volumes, earlier[p] as int, earlier[k - 1] as int));
                    if precedes(
                        uuid_at(volumes, earlier[p] as int),
                        uuid_at(volumes, earlier[k - 1] as int),
                    ) {
                        lemma_precedes_transitive(
                            uuid_at(volumes, x),
                            uuid_at(volumes, earlier[p] as int),
                            uuid_at(volumes, earlier[k - 1] as int),
                            0,
                        );
                    }
                }
            } else if j > p {
                assert(order[j] == earlier[j - 1] && order[k] == earlier[k - 1]);
            } else {
                assert(order[j] == earlier[j] && order[k] == earlier[k - 1]);
            }
        }
    }
}

/// Whether `a` comes before `b` in the order of a dictionary.
pub fn comes_before(a: &Vec<char>, b: &Vec<char>) -> (r: bool)
    ensures
        r == precedes(a@, b@),
{
    let mut i: usize = 0;
    while i < a.len() && i < b.len() && a[i] == b[i]
        invariant
            i <= a@.len(),
            i <= b@.len(),
            precedes_from(a@, b@, 0) == precedes_from(a@, b@, i as int),
        decreases a@.len() - i,
    {
        i += 1;
    }
    if i >= b.len() {
        false
    } else if i >= a.len() {
        true
    } else {
        (a[i] as u32) < (b[i] as u32)
    }
}

/// The order in which `volumes` are backed up: their positions, sorted by
/// identifier; volumes with the same identifier keep their order.
pub fn build_order(volumes: &Vec<EncryptedVolume>) -> (r: Vec<usize>)
    ensures
        r@ == build_order_of(volumes@),
        r@.len() == volumes@.len(),
        forall|k: int| 0 <= k < r@.len() ==> #[trigger] r@[k] < volumes@.len(),
{
    let mut keys: Vec<Vec<char>> = Vec::new();
    let mut i: usize = 0;
    while i < volumes.len()
        invariant
            i <= volumes@.len(),
            keys@.len() == i,
            forall|k: int| 0 <= k < i ==> (#[trigger] keys@[k])@ == uuid_at(volumes@, k),
        decreases volumes@.len() - i,
    {
        keys.push(chars_of(volumes[i].uuid.as_str()));
        i += 1;
    }
    let mut order: Vec<usize> = Vec::new();
    let mut x: usize = 0;
    while x < volumes.len()
        invariant
            x <= volumes@.len(),
            keys@.len() == volumes@.len(),
            forall|k: int|
                0 <= k < keys@.len() ==> (#[trigger] keys@[k])@ == uuid_at(volumes@, k),
            order@ == order_of_first(volumes@, x as int),
            order@.len() == x,
            forall|k: int| 0 <= k < x ==> #[trigger] order@[k] < x,
        decreases volumes@.len() - x,
    {
        let mut p: usize = 0;
        while p < order.len() && !comes_before(&keys[x], &keys[order[p]])
            invariant
                x < volumes@.len(),
                keys@.len() == volumes@.len(),
                forall|k: int|
                    0 <= k < keys@.len() ==> (#[trigger] keys@[k])@ == uuid_at(volumes@, k),
                order@.len() == x,
                forall|k: int| 0 <= k < x ==> #[trigger] order@[k] < x,
                p <= order@.len(),
                slot(volumes@, order@, x as int, 0) == slot(volumes@, order@, x as int, p as int),
            decreases order@.len() - p,
        {
            p += 1;
        }
        let ghost earlier = order@;
        order.insert(p, x);
        proof {
            assert(p == slot(volumes@, earlier, x as int, 0));
            assert forall|k: int| 0 <= k < x + 1 implies #[trigger] order@[k] < x + 1 by {
                if k < p {
                    assert(order@[k] == earlier[k]);
                } else if k > p {
                    assert(order@[k] == earlier[k - 1]);
                }
            }
        }
        x += 1;
    }
    order
}

} // verus!
