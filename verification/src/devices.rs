//! Selection of candidate removable drives from a block-device snapshot:
//! whole USB disks that are not in use anywhere in their partition tree.

use vstd::prelude::*;

verus! {

/// One block device in a snapshot of the machine's device tree, with the
/// devices nested under it.
pub struct BlockDevice {
    /// Path of the device node.
    pub path: String,
    /// De-duplicated chain of subsystems the device sits on.
    pub subsystems: String,
    /// Device type, `disk` for a whole disk.
    pub device_type: String,
    /// Every place the device is mounted; `None` entries are slots the
    /// snapshot reports without a mount point.
    pub mountpoints: Vec<Option<String>>,
    /// The devices nested under this one, such as its partitions.
    pub children: Vec<BlockDevice>,
}

/// Whether any slot reports a mount point.
pub open spec fn spec_mounted(mountpoints: Seq<Option<String>>) -> bool {
    exists|k: int| 0 <= k < mountpoints.len() && mountpoints[k] is Some
}

/// Whether a device or any device nested under it is mounted.
pub open spec fn spec_in_use(d: BlockDevice) -> bool
    decreases d,
{
    spec_mounted(d.mountpoints@) || exists|k: int|
        0 <= k < d.children@.len() && spec_in_use(#[trigger] d.children@[k])
}

/// Whether a device is a candidate drive: a whole disk on the USB subsystem
/// chain, not in use anywhere in its tree.
pub open spec fn spec_is_candidate(d: BlockDevice) -> bool {
    &&& d.device_type@ == "disk"@
    &&& d.subsystems@ == "block:scsi:usb:pci"@
    &&& !spec_in_use(d)
}

/// The paths of the candidate drives in `devs`, in order.
pub open spec fn spec_candidates(devs: Seq<BlockDevice>) -> Seq<Seq<char>>
    decreases devs.len(),
{
    if devs.len() == 0 {
        Seq::empty()
    } else {
        let rest = spec_candidates(devs.skip(1));
        if spec_is_candidate(devs[0]) {
            seq![devs[0].path@] + rest
        } else {
            rest
        }
    }
}

/// Whether `d` or any device nested under it is mounted.
pub fn in_use(d: &BlockDevice) -> (r: bool)
    ensures
        r == spec_in_use(*d),
    decreases *d,
{
    let n = d.mountpoints.len();
    let mut k: usize = 0;
    while k < n
        invariant
            0 <= k <= n,
            n == d.mountpoints@.len(),
            forall|j: int| 0 <= j < k ==> d.mountpoints@[j] is None,
        decreases n - k,
    {
        if d.mountpoints[k].is_some() {
            return true;
        }
        k = k + 1;
    }
    let c = d.children.len();
    let mut k: usize = 0;
    while k < c
        invariant
            0 <= k <= c,
            c == d.children@.len(),
            !spec_mounted(d.mountpoints@),
            forall|j: int| 0 <= j < k ==> !spec_in_use(#[trigger] d.children@[j]),
        decreases c - k,
    {
        if in_use(&d.children[k]) {
            return true;
        }
        k = k + 1;
    }
    false
}

/// The candidate drives in a snapshot: the paths of the whole USB disks
/// that are not in use, in snapshot order.
pub fn candidates(devs: &Vec<BlockDevice>) -> (r: Vec<String>)
    ensures
        r@.map_values(|p: String| p@) == spec_candidates(devs@),
{
    let disk: String = "disk".to_owned();
    let usb_chain: String = "block:scsi:usb:pci".to_owned();
    let n = devs.len();
    let mut r: Vec<String> = Vec::new();
    let mut i: usize = 0;
    proof {
        assert(devs@.skip(0) =~= devs@);
        assert(r@.map_values(|p: String| p@) =~= Seq::<Seq<char>>::empty());
    }
    while i < n
        invariant
            0 <= i <= n,
            n == devs@.len(),
            disk@ == "disk"@,
            usb_chain@ == "block:scsi:usb:pci"@,
            spec_candidates(devs@) == r@.map_values(|p: String| p@) + spec_candidates(
                devs@.skip(i as int),
            ),
        decreases n - i,
    {
        let ghost pre = devs@.skip(i as int);
        proof {
            assert(pre[0] == devs@[i as int]);
            assert(pre.skip(1) =~= devs@.skip(i as int + 1));
        }
        let d = &devs[i];
        let ghost views_before = r@.map_values(|p: String| p@);
        if d.device_type == disk && d.subsystems == usb_chain && !in_use(d) {
            r.push(d.path.clone());
            proof {
                assert(r@.map_values(|p: String| p@) =~= views_before.push(devs@[i as int].path@));
                assert(views_before + (seq![devs@[i as int].path@] + spec_candidates(
                    devs@.skip(i as int + 1),
                )) =~= views_before.push(devs@[i as int].path@) + spec_candidates(
                    devs@.skip(i as int + 1),
                ));
            }
        }
        i = i + 1;
    }
    proof {
        assert(devs@.skip(n as int) =~= Seq::<BlockDevice>::empty());
        assert(spec_candidates(devs@) =~= r@.map_values(|p: String| p@));
    }
    r
}

/// The devices in `current` whose paths were not in `start`: a drive that
/// appeared since the earlier snapshot.
pub fn new_devices(current: &Vec<String>, start: &Vec<String>) -> (r: Vec<String>)
    ensures
        r@.map_values(|p: String| p@) == current@.map_values(|p: String| p@).filter(
            |p: Seq<char>| !start@.map_values(|q: String| q@).contains(p),
        ),
{
    let n = current.len();
    let mut r: Vec<String> = Vec::new();
    let mut i: usize = 0;
    proof {
        assert(current@.map_values(|p: String| p@).take(0) =~= Seq::<Seq<char>>::empty());
        assert(Seq::<Seq<char>>::empty().filter(
            |p: Seq<char>| !start@.map_values(|q: String| q@).contains(p),
        ) =~= Seq::<Seq<char>>::empty());
        assert(r@.map_values(|p: String| p@) =~= Seq::<Seq<char>>::empty());
    }
    while i < n
        invariant
            0 <= i <= n,
            n == current@.len(),
            r@.map_values(|p: String| p@) == current@.map_values(|p: String| p@).take(
                i as int,
            ).filter(|p: Seq<char>| !start@.map_values(|q: String| q@).contains(p)),
        decreases n - i,
    {
        let ghost cur_views = current@.map_values(|p: String| p@);
        let ghost pred = |p: Seq<char>| !start@.map_values(|q: String| q@).contains(p);
        let ghost views_before = r@.map_values(|p: String| p@);
        let absent = not_contained(start, &current[i]);
        if absent {
            r.push(current[i].clone());
            proof {
                assert(r@.map_values(|p: String| p@) =~= views_before.push(cur_views[i as int]));
            }
        }
        proof {
            reveal(Seq::filter);
            let pushed = cur_views.take(i as int).push(cur_views[i as int]);
            assert(cur_views.take(i as int + 1) =~= pushed);
            assert(pushed.drop_last() =~= cur_views.take(i as int));
            assert(pushed.last() == cur_views[i as int]);
            if absent {
                assert(pred(cur_views[i as int]));
                assert(pushed.filter(pred) == cur_views.take(i as int).filter(pred).push(
                    cur_views[i as int],
                ));
            } else {
                assert(!pred(cur_views[i as int]));
                assert(pushed.filter(pred) == cur_views.take(i as int).filter(pred));
            }
        }
        i = i + 1;
    }
    proof {
        assert(current@.map_values(|p: String| p@).take(n as int) =~= current@.map_values(
            |p: String| p@,
        ));
    }
    r
}

/// Whether no entry of `haystack` equals `needle`.
fn not_contained(haystack: &Vec<String>, needle: &String) -> (r: bool)
    ensures
        r == !haystack@.map_values(|q: String| q@).contains(needle@),
{
    let n = haystack.len();
    let mut i: usize = 0;
    while i < n
        invariant
            0 <= i <= n,
            n == haystack@.len(),
            forall|j: int| 0 <= j < i ==> (#[trigger] haystack@[j])@ != needle@,
        decreases n - i,
    {
        if haystack[i].eq(needle) {
            proof {
                assert(haystack@.map_values(|q: String| q@)[i as int] == needle@);
            }
            return false;
        }
        i = i + 1;
    }
    proof {
        let views = haystack@.map_values(|q: String| q@);
        assert forall|j: int| 0 <= j < views.len() implies #[trigger] views[j] != needle@ by {
            assert(views[j] == haystack@[j]@);
        }
        assert(!views.contains(needle@));
    }
    true
}

} // verus!
