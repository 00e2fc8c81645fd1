//! Encrypted volumes and the mapping from device path to volume identifier.

use vstd::prelude::*;
use vstd::string::*;

verus! {

/// An encrypted volume: its device node path and its stable identifier.
#[derive(Debug)]
pub struct EncryptedVolume {
    pub device_path: String,
    pub uuid: String,
}

/// The device path of the `i`-th volume of `vs`.
pub open spec fn device_at(vs: Seq<EncryptedVolume>, i: int) -> Seq<char> {
    vs[i].device_path@
}

/// Whether some volume of `vs` has the device path `dev`.
pub open spec fn has_device(vs: Seq<EncryptedVolume>, dev: Seq<char>) -> bool {
    exists|i: int| 0 <= i < vs.len() && #[trigger] device_at(vs, i) == dev
}

/// The position of a volume of `vs` with device path `dev`.
pub open spec fn position_of(vs: Seq<EncryptedVolume>, dev: Seq<char>) -> int {
    choose|i: int| 0 <= i < vs.len() && #[trigger] device_at(vs, i) == dev
}

/// No two volumes of `vs` share a device path.
pub open spec fn distinct_devices(vs: Seq<EncryptedVolume>) -> bool {
    forall|i: int, j: int|
        0 <= i < vs.len() && 0 <= j < vs.len() && i != j ==> #[trigger] device_at(vs, i)
            != #[trigger] device_at(vs, j)
}

/// The mapping that `vs` stands for: device path to identifier.
pub open spec fn map_of(vs: Seq<EncryptedVolume>) -> Map<Seq<char>, Seq<char>> {
    Map::new(|d: Seq<char>| has_device(vs, d), |d: Seq<char>| vs[position_of(vs, d)].uuid@)
}

/// With distinct device paths, each volume is what the mapping holds for its path.
pub proof fn lemma_map_of_at(vs: Seq<EncryptedVolume>, i: int)
    requires
        distinct_devices(vs),
        0 <= i < vs.len(),
    ensures
        map_of(vs).contains_key(device_at(vs, i)),
        map_of(vs)[device_at(vs, i)] == vs[i].uuid@,
{
    let d = device_at(vs, i);
    assert(has_device(vs, d));
    let p = position_of(vs, d);
    assert(0 <= p < vs.len() && device_at(vs, p) == d);
    assert(p == i);
}

/// With distinct device paths, the mapping has one key for each volume.
pub proof fn lemma_map_of_len(vs: Seq<EncryptedVolume>)
    requires
        distinct_devices(vs),
    ensures
        map_of(vs).dom().finite(),
        map_of(vs).dom().len() == vs.len(),
    decreases vs.len(),
{
    if vs.len() == 0 {
        assert(map_of(vs).dom() =~= Set::<Seq<char>>::empty());
    } else {
        let init = vs.drop_last();
        let last = device_at(vs, vs.len() - 1);
        assert forall|i: int, j: int|
            0 <= i < init.len() && 0 <= j < init.len() && i != j implies #[trigger] device_at(
            init,
            i,
        ) != #[trigger] device_at(init, j) by {
            assert(device_at(init, i) == device_at(vs, i));
            assert(device_at(init, j) == device_at(vs, j));
        }
        lemma_map_of_len(init);
        assert(!map_of(init).dom().contains(last)) by {
            if has_device(init, last) {
                let p = position_of(init, last);
                assert(device_at(vs, p) == device_at(init, p));
                assert(device_at(vs, vs.len() - 1) == last);
            }
        }
        assert(map_of(vs).dom() =~= map_of(init).dom().insert(last)) by {
            assert forall|d: Seq<char>| has_device(vs, d) <==> (has_device(init, d) || d
                == last) by {
                if has_device(vs, d) {
                    let p = position_of(vs, d);
                    if p < init.len() {
                        assert(device_at(init, p) == d);
                    }
                }
                if has_device(init, d) {
                    let p = position_of(init, d);
                    assert(device_at(vs, p) == d);
                }
                if d == last {
                    assert(device_at(vs, vs.len() - 1) == d);
                }
            }
        }
    }
}

/// A mapping from device path to volume identifier that keeps its entries in
/// the order in which their device paths were first inserted.
#[derive(Debug)]
pub struct VolumeMap {
    pub entries: Vec<EncryptedVolume>,
}

impl View for VolumeMap {
    type V = Map<Seq<char>, Seq<char>>;

    open spec fn view(&self) -> Map<Seq<char>, Seq<char>> {
        map_of(self.entries@)
    }
}

impl VolumeMap {
    /// The invariant: no device path occurs twice.
    pub open spec fn wf(&self) -> bool {
        distinct_devices(self.entries@)
    }

    /// The empty mapping.
    pub fn new() -> (r: VolumeMap)
        ensures
            r.wf(),
            r@ == Map::<Seq<char>, Seq<char>>::empty(),
            r.entries@.len() == 0,
    {
        let r = VolumeMap { entries: Vec::new() };
        proof {
            assert(r@ =~= Map::<Seq<char>, Seq<char>>::empty());
        }
        r
    }

    /// The position of the entry for `device_path`, if there is one.
    pub fn find(&self, device_path: &String) -> (r: Option<usize>)
        ensures
            match r {
                Some(i) => i < self.entries@.len() && device_at(self.entries@, i as int)
                    == device_path@,
                None => !has_device(self.entries@, device_path@),
            },
    {
        let mut i: usize = 0;
        while i < self.entries.len()
            invariant
                i <= self.entries@.len(),
                forall|k: int|
                    0 <= k < i ==> #[trigger] device_at(self.entries@, k) != device_path@,
            decreases self.entries@.len() - i,
        {
            if self.entries[i].device_path == *device_path {
                return Some(i);
            }
            i += 1;
        }
        None
    }

    /// Sets the identifier for `device_path`; a later insertion for the same
    /// path replaces the earlier identifier and keeps the entry's position.
    pub fn insert(&mut self, device_path: String, uuid: String)
        requires
            old(self).wf(),
        ensures
            final(self).wf(),
            final(self)@ == old(self)@.insert(device_path@, uuid@),
            has_device(old(self).entries@, device_path@) ==> final(self).entries@
                == old(self).entries@.update(
                position_of(old(self).entries@, device_path@),
                EncryptedVolume { device_path, uuid },
            ),
            !has_device(old(self).entries@, device_path@) ==> final(self).entries@ == old(
                self,
            ).entries@.push(EncryptedVolume { device_path, uuid }),
    {
        let ghost before = self.entries@;
        let ghost dev = device_path@;
        let ghost id = uuid@;
        let found = self.find(&device_path);
        match found {
            Some(i) => {
                proof {
                    let p = position_of(before, dev);
                    assert(device_at(before, p) == dev);
                    assert(p == i);
                }
                self.entries.set(i, EncryptedVolume { device_path, uuid });
            },
            None => {
                self.entries.push(EncryptedVolume { device_path, uuid });
            },
        }
        proof {
            let after = self.entries@;
            assert forall|k: int| 0 <= k < after.len() implies (#[trigger] device_at(after, k)
                == if k < before.len() {
                device_at(before, k)
            } else {
                dev
            }) by {}
            assert(distinct_devices(after)) by {
                assert forall|a: int, b: int|
                    0 <= a < after.len() && 0 <= b < after.len() && a != b implies
                    #[trigger] device_at(after, a) != #[trigger] device_at(after, b) by {
                    if a < before.len() && b < before.len() {
                        assert(device_at(before, a) != device_at(before, b));
                    } else if a < before.len() {
                        assert(device_at(before, a) != dev);
                    } else {
                        assert(device_at(before, b) != dev);
                    }
                }
            }
            let target = map_of(before).insert(dev, id);
            assert forall|d: Seq<char>| map_of(after).contains_key(d) <==> target.contains_key(
                d,
            ) by {
                if has_device(after, d) {
                    let p = position_of(after, d);
                    if d != dev {
                        assert(device_at(before, p) == d);
                    }
                }
                if has_device(before, d) {
                    let p = position_of(before, d);
                    assert(device_at(after, p) == d);
                }
                if d == dev {
                    match found {
                        Some(i) => {
                            assert(device_at(after, i as int) == d);
                        },
                        None => {
                            assert(device_at(after, after.len() - 1) == d);
                        },
                    }
                }
            }
            assert forall|d: Seq<char>| map_of(after).contains_key(d) implies map_of(after)[d]
                == target[d] by {
                let p = position_of(after, d);
                assert(device_at(after, p) == d);
                lemma_map_of_at(after, p);
                if d != dev {
                    assert(device_at(before, p) == d);
                    lemma_map_of_at(before, p);
                    assert(after[p] == before[p]);
                }
            }
            assert(map_of(after) =~= target);
        }
    }

    /// The identifier recorded for `device_path`, if there is one.
    pub fn get(&self, device_path: &str) -> (r: Option<&String>)
        requires
            self.wf(),
        ensures
            match r {
                Some(u) => self@.contains_key(device_path@) && u@ == self@[device_path@],
                None => !self@.contains_key(device_path@),
            },
    {
        let key = device_path.to_owned();
        match self.find(&key) {
            Some(i) => {
                proof {
                    lemma_map_of_at(self.entries@, i as int);
                }
                Some(&self.entries[i].uuid)
            },
            None => None,
        }
    }

    /// Whether an identifier is recorded for `device_path`.
    pub fn contains_key(&self, device_path: &str) -> (r: bool)
        ensures
            r == self@.contains_key(device_path@),
    {
        let key = device_path.to_owned();
        self.find(&key).is_some()
    }

    /// The number of device paths in the mapping.
    pub fn len(&self) -> (r: usize)
        requires
            self.wf(),
        ensures
            r == self@.dom().len(),
            r == self.entries@.len(),
    {
        proof {
            lemma_map_of_len(self.entries@);
        }
        self.entries.len()
    }

    /// Whether the mapping holds no device path.
    pub fn is_empty(&self) -> (r: bool)
        ensures
            r == (self@ == Map::<Seq<char>, Seq<char>>::empty()),
            r == (self.entries@.len() == 0),
    {
        proof {
            if self.entries@.len() > 0 {
                assert(device_at(self.entries@, 0) == self.entries@[0].device_path@);
                assert(has_device(self.entries@, device_at(self.entries@, 0)));
                assert(self@.contains_key(device_at(self.entries@, 0)));
            } else {
                assert(self@ =~= Map::<Seq<char>, Seq<char>>::empty());
            }
        }
        self.entries.len() == 0
    }
}

} // verus!
