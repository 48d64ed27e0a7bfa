//! The block devices that `lsblk --json` lists, and which of their partitions are
//! offered for mounting.
use vstd::prelude::*;
use crate::path::{join, join_of};
use crate::text::{chars_of, string_from_chars};

verus! {

/// What `lsblk --json` lists: the block devices.
pub struct Lsblk {
    pub blockdevices: Vec<BlockDevice>,
}

/// A block device and its partitions.
pub struct BlockDevice {
    pub children: Vec<Partition>,
}

/// A partition: its device name, its size as `lsblk` writes it (a number and a
/// unit letter), and where it is mounted.
pub struct Partition {
    pub name: String,
    pub size: String,
    pub mountpoints: Vec<Option<String>>,
}

/// The size of a partition as written, split into its number and its unit: the
/// text before a final `T` (terabytes) or `G` (gigabytes).
pub enum SizeReading {
    Tera(String),
    Giga(String),
    Unknown,
}

/// The partitions of the devices `devs`, device after device, each in its order.
pub open spec fn all_children(devs: Seq<BlockDevice>) -> Seq<Partition>
    decreases devs.len(),
{
    if devs.len() == 0 {
        Seq::empty()
    } else {
        all_children(devs.drop_last()) + devs.last().children@
    }
}

/// A mount point the system itself lives on: `/`, `/home` or `/boot`.
pub open spec fn system_mount(m: Seq<char>) -> bool {
    m == seq!['/'] || m == seq!['/', 'h', 'o', 'm', 'e'] || m == seq!['/', 'b', 'o', 'o', 't']
}

/// No mount point of `p` is one the system lives on.
pub open spec fn system_free(p: Partition) -> bool {
    forall|i: int|
        0 <= i < p.mountpoints@.len() ==> (#[trigger] p.mountpoints@[i] matches Some(m) ==> !system_mount(m@))
}

/// `p` is mounted somewhere.
pub open spec fn mounted(p: Partition) -> bool {
    exists|i: int| 0 <= i < p.mountpoints@.len() && (#[trigger] p.mountpoints@[i]) is Some
}

/// The partitions of `parts` that are big enough (by `big_enough`, one verdict per
/// partition) and system free, in order.
pub open spec fn kept(parts: Seq<Partition>, big_enough: Seq<bool>) -> Seq<Partition>
    decreases parts.len(),
{
    if parts.len() == 0 {
        Seq::empty()
    } else {
        let rest = kept(parts.drop_last(), big_enough.take(parts.len() - 1));
        if big_enough[parts.len() - 1] && system_free(parts.last()) {
            rest.push(parts.last())
        } else {
            rest
        }
    }
}

/// The reading of the size text `s`.
pub open spec fn size_reading(s: Seq<char>) -> (Option<bool>, Seq<char>) {
    if s.len() > 0 && s.last() == 'T' {
        (Some(true), s.drop_last())
    } else if s.len() > 0 && s.last() == 'G' {
        (Some(false), s.drop_last())
    } else {
        (None, s)
    }
}

/// The characters of a system mount point, for comparing.
fn system_mounts() -> (r: Vec<Vec<char>>)
    ensures
        r@.len() == 3,
        forall|m: Seq<char>| system_mount(m) <==> (m == r@[0]@ || m == r@[1]@ || m == r@[2]@),
{
    let mut r: Vec<Vec<char>> = Vec::new();
    r.push(vec!['/']);
    r.push(vec!['/', 'h', 'o', 'm', 'e']);
    r.push(vec!['/', 'b', 'o', 'o', 't']);
    assert(r@[0]@ =~= seq!['/']);
    assert(r@[1]@ =~= seq!['/', 'h', 'o', 'm', 'e']);
    assert(r@[2]@ =~= seq!['/', 'b', 'o', 'o', 't']);
    r
}

impl Partition {
    /// The number and unit of the partition's size, as written.
    pub fn size_reading(&self) -> (r: SizeReading)
        ensures
            match r {
                SizeReading::Tera(n) => size_reading(self.size@) == (Some(true), n@),
                SizeReading::Giga(n) => size_reading(self.size@) == (Some(false), n@),
                SizeReading::Unknown => size_reading(self.size@).0 is None,
            },
    {
        let cs = chars_of(self.size.as_str());
        let n = cs.len();
        if n > 0 && (cs[n - 1] == 'T' || cs[n - 1] == 'G') {
            let mut num: Vec<char> = Vec::new();
            let mut i: usize = 0;
            while i < n - 1
                invariant
                    n == cs@.len(),
                    n > 0,
                    i <= n - 1,
                    num@ == cs@.take(i as int),
                decreases n - 1 - i,
            {
                num.push(cs[i]);
                i = i + 1;
                assert(num@ =~= cs@.take(i as int));
            }
            assert(num@ =~= cs@.drop_last());
            let text = string_from_chars(num.as_slice());
            if cs[n - 1] == 'T' {
                SizeReading::Tera(text)
            } else {
                SizeReading::Giga(text)
            }
        } else {
            SizeReading::Unknown
        }
    }

    /// Whether no mount point of the partition is one the system lives on.
    pub fn is_system_free(&self) -> (r: bool)
        ensures
            r == system_free(*self),
    {
        let system = system_mounts();
        let mut i: usize = 0;
        while i < self.mountpoints.len()
            invariant
                i <= self.mountpoints@.len(),
                system@.len() == 3,
                forall|m: Seq<char>|
                    system_mount(m) <==> (m == system@[0]@ || m == system@[1]@ || m == system@[2]@),
                forall|j: int|
                    0 <= j < i ==> (#[trigger] self.mountpoints@[j] matches Some(m) ==> !system_mount(m@)),
            decreases self.mountpoints@.len() - i,
        {
            match &self.mountpoints[i] {
                Some(m) => {
                    let cs = chars_of(m.as_str());
                    let mut k: usize = 0;
                    while k < 3
                        invariant
                            k <= 3,
                            system@.len() == 3,
                            cs@ == m@,
                            i < self.mountpoints@.len(),
                            self.mountpoints@[i as int] == Some(*m),
                            forall|j: int| 0 <= j < k ==> cs@ != system@[j]@,
                            forall|q: Seq<char>|
                                system_mount(q) <==> (q == system@[0]@ || q == system@[1]@ || q
                                    == system@[2]@),
                        decreases 3 - k,
                    {
                        if crate::text::chars_eq(cs.as_slice(), system[k].as_slice()) {
                            assert(system_mount(m@));
                            assert(!system_free(*self)) by {
                                assert(self.mountpoints@[i as int] matches Some(q) && system_mount(q@));
                            }
                            return false;
                        }
                        k = k + 1;
                    }
                },
                None => {},
            }
            i = i + 1;
        }
        true
    }

    /// Whether the partition is mounted somewhere.
    pub fn is_mounted(&self) -> (r: bool)
        ensures
            r == mounted(*self),
    {
        let mut i: usize = 0;
        while i < self.mountpoints.len()
            invariant
                i <= self.mountpoints@.len(),
                forall|j: int| 0 <= j < i ==> (#[trigger] self.mountpoints@[j]) is None,
            decreases self.mountpoints@.len() - i,
        {
            if self.mountpoints[i].is_some() {
                return true;
            }
            i = i + 1;
        }
        false
    }

    /// The device file of the partition: its name under `/dev`.
    pub fn dev_path(&self) -> (r: String)
        ensures
            r@ == join(seq!['/', 'd', 'e', 'v'], self.name@),
    {
        let dev = vec!['/', 'd', 'e', 'v'];
        let name = chars_of(self.name.as_str());
        let p = join_of(dev.as_slice(), name.as_slice());
        string_from_chars(p.as_slice())
    }
}

impl Lsblk {
    /// The sizes of all partitions as written, device after device.
    pub fn sizes(&self) -> (r: Vec<String>)
        ensures
            r@.len() == all_children(self.blockdevices@).len(),
            forall|i: int| 0 <= i < r@.len() ==> #[trigger] r@[i]@ == all_children(self.blockdevices@)[i].size@,
    {
        let mut r: Vec<String> = Vec::new();
        let mut d: usize = 0;
        while d < self.blockdevices.len()
            invariant
                d <= self.blockdevices@.len(),
                r@.len() == all_children(self.blockdevices@.take(d as int)).len(),
                forall|i: int| 0 <= i < r@.len() ==> #[trigger] r@[i]@ == all_children(self.blockdevices@.take(d as int))[i].size@,
            decreases self.blockdevices@.len() - d,
        {
            let children = &self.blockdevices[d].children;
            let ghost before = all_children(self.blockdevices@.take(d as int));
            let mut c: usize = 0;
            while c < children.len()
                invariant
                    c <= children@.len(),
                    r@.len() == before.len() + c,
                    forall|i: int| 0 <= i < before.len() ==> #[trigger] r@[i]@ == before[i].size@,
                    forall|i: int| 0 <= i < c ==> #[trigger] r@[before.len() + i]@ == children@[i].size@,
                decreases children@.len() - c,
            {
                r.push(children[c].size.clone());
                c = c + 1;
            }
            proof {
                assert(self.blockdevices@.take(d + 1).drop_last() =~= self.blockdevices@.take(d as int));
                let after = all_children(self.blockdevices@.take(d + 1));
                assert(after =~= before + children@);
                assert forall|i: int| 0 <= i < r@.len() implies #[trigger] r@[i]@ == after[i].size@ by {
                    if i >= before.len() {
                        assert(r@[before.len() + (i - before.len())]@ == children@[i - before.len()].size@);
                    }
                }
            }
            d = d + 1;
        }
        assert(self.blockdevices@.take(d as int) =~= self.blockdevices@);
        r
    }

    /// The partitions offered for mounting: of all partitions, device after device,
    /// those whose size is big enough (`big_enough`, one verdict per partition in
    /// that order) and on which the system does not live.
    pub fn partitions(self, big_enough: &Vec<bool>) -> (r: Vec<Partition>)
        requires
            big_enough@.len() == all_children(self.blockdevices@).len(),
        ensures
            r@ == kept(all_children(self.blockdevices@), big_enough@),
    {
        let ghost all = all_children(self.blockdevices@);
        let ghost devs = self.blockdevices@;
        let mut blockdevices = self.blockdevices;
        let mut parts: Vec<Partition> = Vec::new();
        let n = blockdevices.len();
        let mut d: usize = 0;
        while d < n
            invariant
                n == devs.len(),
                d <= n,
                blockdevices@ == devs.skip(d as int),
                parts@ == all_children(devs.take(d as int)),
            decreases n - d,
        {
            let dev = blockdevices.remove(0);
            let ghost kids = dev.children@;
            let mut children = dev.children;
            let m = children.len();
            let ghost before = parts@;
            let mut c: usize = 0;
            while c < m
                invariant
                    m == kids.len(),
                    c <= m,
                    children@ == kids.skip(c as int),
                    parts@ == before + kids.take(c as int),
                decreases m - c,
            {
                let p = children.remove(0);
                parts.push(p);
                proof {
                    assert(kids.skip(c as int).remove(0) =~= kids.skip(c + 1));
                    assert(before + kids.take(c + 1) =~= (before + kids.take(c as int)).push(kids[c as int]));
                }
                c = c + 1;
            }
            proof {
                assert(kids.take(m as int) =~= kids);
                assert(devs.skip(d as int)[0] == devs[d as int]);
                assert(devs.skip(d as int).remove(0) =~= devs.skip(d + 1));
                assert(devs.take(d + 1).drop_last() =~= devs.take(d as int));
            }
            d = d + 1;
        }
        assert(devs.take(n as int) =~= devs);
        let mut r: Vec<Partition> = Vec::new();
        let total = parts.len();
        let mut i: usize = 0;
        while i < total
            invariant
                total == all.len(),
                big_enough@.len() == all.len(),
                i <= total,
                parts@ == all.skip(i as int),
                r@ == kept(all.take(i as int), big_enough@.take(i as int)),
            decreases total - i,
        {
            let p = parts.remove(0);
            let keep = big_enough[i] && p.is_system_free();
            proof {
                assert(all.take(i + 1).drop_last() =~= all.take(i as int));
                assert(big_enough@.take(i + 1).take(i as int) =~= big_enough@.take(i as int));
                assert(all.skip(i as int).remove(0) =~= all.skip(i + 1));
            }
            if keep {
                r.push(p);
            }
            i = i + 1;
        }
        assert(all.take(total as int) =~= all);
        assert(big_enough@.take(total as int) =~= big_enough@);
        r
    }
}

/// Every partition offered for mounting is one on which the system does not live,
/// and none is offered that was not listed.
pub proof fn lemma_offered_are_system_free(parts: Seq<Partition>, big_enough: Seq<bool>)
    requires
        big_enough.len() == parts.len(),
    ensures
        kept(parts, big_enough).len() <= parts.len(),
        forall|i: int| 0 <= i < kept(parts, big_enough).len() ==> system_free(#[trigger] kept(parts, big_enough)[i]),
        forall|i: int| 0 <= i < kept(parts, big_enough).len() ==> parts.contains(#[trigger] kept(parts, big_enough)[i]),
    decreases parts.len(),
{
    if parts.len() > 0 {
        let rest = kept(parts.drop_last(), big_enough.take(parts.len() - 1));
        lemma_offered_are_system_free(parts.drop_last(), big_enough.take(parts.len() - 1));
        assert forall|i: int| 0 <= i < rest.len() implies parts.contains(#[trigger] rest[i]) by {
            let j = choose|j: int| 0 <= j < parts.drop_last().len() && parts.drop_last()[j] == rest[i];
            assert(parts[j] == rest[i]);
        }
        assert(parts[parts.len() - 1] == parts.last());
    }
}

/// A partition that is not mounted anywhere is one on which the system does not live.
pub proof fn lemma_unmounted_is_system_free(p: Partition)
    ensures
        !mounted(p) ==> system_free(p),
{
    if !mounted(p) {
        assert forall|i: int| 0 <= i < p.mountpoints@.len() implies (#[trigger] p.mountpoints@[i] matches Some(m) ==> !system_mount(m@)) by {
            assert(!(p.mountpoints@[i] is Some));
        }
    }
}

/// Every listed partition that is big enough and on which the system does not live
/// is offered for mounting, whether or not it is mounted somewhere now (a mounted one
/// is unmounted and mounted again).
pub proof fn lemma_every_fit_partition_offered(parts: Seq<Partition>, big_enough: Seq<bool>)
    requires
        big_enough.len() == parts.len(),
    ensures
        forall|i: int|
            0 <= i < parts.len() && big_enough[i] && system_free(parts[i]) ==> kept(parts, big_enough).contains(
                #[trigger] parts[i],
            ),
    decreases parts.len(),
{
    if parts.len() > 0 {
        let n = parts.len() - 1;
        let p0 = parts.drop_last();
        let b0 = big_enough.take(n);
        let rest = kept(p0, b0);
        lemma_every_fit_partition_offered(p0, b0);
        assert forall|i: int|
            0 <= i < parts.len() && big_enough[i] && system_free(parts[i]) implies kept(parts, big_enough).contains(
                #[trigger] parts[i],
            ) by {
            let k = kept(parts, big_enough);
            if i < n {
                assert(p0[i] == parts[i]);
                assert(b0[i] == big_enough[i]);
                assert(rest.contains(p0[i]));
                let j = choose|j: int| 0 <= j < rest.len() && rest[j] == p0[i];
                if big_enough[n] && system_free(parts.last()) {
                    assert(k[j] == rest[j]);
                } else {
                    assert(k == rest);
                }
            } else {
                assert(parts.last() == parts[i]);
                assert(k[k.len() - 1] == parts[i]);
            }
        }
    }
}

} // verus!
