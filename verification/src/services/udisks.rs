//! Which UDisks2 block devices are offered as removable drives.
use vstd::prelude::*;
use vstd::utf8::{decode_utf8, valid_utf8};

use crate::models::{Drive, DriveView};
use crate::ordering::{keys, lemma_views_push, sort_by_key, sorted_keys, views};
use crate::services::objects::{block_drive_path, flag_or, ManagedObject};
use crate::text::{
    chars_of, has_infix, has_prefix, opt_view, str_contains, str_equal, str_starts_with, substring, trim_str,
    trimmed,
};

verus! {

// ---------------------------------------------------------------------------
// Vendor and model
// ---------------------------------------------------------------------------

/// The name shown for a drive from its vendor and model, both trimmed: the
/// model alone when it already begins with the vendor, else both joined by a
/// space; nothing when both are blank.
pub open spec fn combined_name(vendor: Seq<char>, model: Seq<char>) -> Option<Seq<char>> {
    let v = trimmed(vendor);
    let m = trimmed(model);
    if v.len() == 0 && m.len() == 0 {
        None
    } else if v.len() == 0 {
        Some(m)
    } else if m.len() == 0 {
        Some(v)
    } else if has_prefix(m, v) {
        Some(m)
    } else {
        Some(v + " "@ + m)
    }
}

/// Joins a drive's vendor and model for display.
pub fn combine_vendor_model(vendor: &str, model: &str) -> (r: Option<String>)
    ensures
        opt_view(r) == combined_name(vendor@, model@),
{
    let v = trim_str(vendor);
    let m = trim_str(model);
    let vn = v.unicode_len();
    let mn = m.unicode_len();
    if vn == 0 && mn == 0 {
        return None;
    }
    if vn == 0 {
        return Some(m);
    }
    if mn == 0 {
        return Some(v);
    }
    if str_starts_with(m.as_str(), v.as_str()) {
        return Some(m);
    }
    let mut r = v;
    r.append(" ");
    r.append(m.as_str());
    Some(r)
}

/// A name is given whenever the vendor is not blank, and it begins with the
/// vendor exactly once: a model that already names the vendor is kept as it is.
pub proof fn law_combined_name_leads_with_vendor(vendor: Seq<char>, model: Seq<char>)
    ensures
        trimmed(vendor).len() > 0 ==> (combined_name(vendor, model) matches Some(x) && has_prefix(
            x,
            trimmed(vendor),
        )),
        has_prefix(trimmed(model), trimmed(vendor)) && trimmed(model).len() > 0 ==> combined_name(
            vendor,
            model,
        ) == Some(trimmed(model)),
{
    let v = trimmed(vendor);
    let m = trimmed(model);
    if v.len() > 0 && m.len() > 0 && !has_prefix(m, v) {
        let x = v + " "@ + m;
        assert(x.take(v.len() as int) =~= v);
    }
    if v.len() > 0 && m.len() == 0 {
        assert(v.take(v.len() as int) =~= v);
    }
}

// ---------------------------------------------------------------------------
// Device files
// ---------------------------------------------------------------------------

/// Position of the last `c` in `s`, or `-1`.
pub open spec fn last_index_of(s: Seq<char>, c: char) -> int
    decreases s.len(),
{
    if s.len() == 0 {
        -1
    } else if s.last() == c {
        s.len() - 1
    } else {
        last_index_of(s.drop_last(), c)
    }
}

pub proof fn lemma_last_index_of(s: Seq<char>, c: char)
    ensures
        -1 <= last_index_of(s, c) < s.len(),
        last_index_of(s, c) >= 0 ==> s[last_index_of(s, c)] == c,
        forall|j: int| last_index_of(s, c) < j < s.len() ==> s[j] != c,
    decreases s.len(),
{
    if s.len() > 0 && s.last() != c {
        let d = s.drop_last();
        lemma_last_index_of(d, c);
        assert forall|j: int| last_index_of(s, c) < j < s.len() implies s[j] != c by {
            if j < s.len() - 1 {
                assert(s[j] == d[j]);
            }
        }
    }
}

/// The file name of a Unix path, as `Path::file_name` gives it: the last
/// component, ignoring trailing `/` and `.` components; none when that
/// component is `..` or there is none.
pub open spec fn path_file_name(s: Seq<char>) -> Option<Seq<char>>
    decreases s.len(),
{
    if s.len() == 0 {
        None
    } else if s.last() == '/' {
        path_file_name(s.drop_last())
    } else {
        let k = last_index_of(s, '/');
        let seg = s.subrange(k + 1, s.len() as int);
        if seg == seq!['.'] {
            proof {
                lemma_last_index_of(s, '/');
            }
            path_file_name(s.take(k + 1))
        } else if seg == seq!['.', '.'] {
            None
        } else {
            proof {
                lemma_last_index_of(s, '/');
            }
            Some(seg)
        }
    }
}

/// The file name of the path `s` (`Path::file_name`).
pub fn file_name_of(s: &str) -> (r: Option<String>)
    ensures
        opt_view(r) == path_file_name(s@),
{
    let v = chars_of(s);
    let mut end: usize = v.len();
    assert(s@.take(end as int) =~= s@);
    loop
        invariant
            v@ == s@,
            end <= v.len(),
            path_file_name(s@) == path_file_name(s@.take(end as int)),
        decreases end,
    {
        let ghost cur = s@.take(end as int);
        if end == 0 {
            return None;
        }
        if v[end - 1] == '/' {
            assert(cur.drop_last() =~= s@.take(end - 1));
            end = end - 1;
            continue;
        }
        let mut k: usize = end;
        while k > 0 && v[k - 1] != '/'
            invariant
                k <= end <= v.len(),
                forall|j: int| k <= j < end ==> v@[j] != '/',
            decreases k,
        {
            k = k - 1;
        }
        proof {
            lemma_last_index_of(cur, '/');
            let li = last_index_of(cur, '/');
            if k > 0 {
                assert(cur[k - 1] == '/');
                assert(li >= k - 1);
                if li > k - 1 {
                    assert(cur[li] == v@[li]);
                }
            } else {
                if li >= 0 {
                    assert(cur[li] == v@[li]);
                }
            }
            assert(li == k - 1);
        }
        let seg_len = end - k;
        let ghost seg = cur.subrange(k as int, end as int);
        if seg_len == 1 && v[k] == '.' {
            assert(seg =~= seq!['.']);
            assert(cur.take(k as int) =~= s@.take(k as int));
            end = k;
            continue;
        }
        if seg_len == 2 && v[k] == '.' && v[k + 1] == '.' {
            assert(seg =~= seq!['.', '.']);
            return None;
        }
        proof {
            if seg_len == 1 {
                assert(seg[0] == v@[k as int]);
                assert(seg != seq!['.']);
            }
            if seg_len == 2 {
                assert(seg[0] == v@[k as int]);
                assert(seg[1] == v@[k + 1]);
                assert(seg != seq!['.', '.']);
            }
            if seg_len != 1 {
                assert(seg.len() != 1);
            }
        }
        let r = substring(s, k, end);
        assert(r@ =~= seg);
        return Some(r);
    }
}

/// `bytes` without one trailing NUL byte.
pub open spec fn without_trailing_nul(bytes: Seq<u8>) -> Seq<u8> {
    if bytes.len() > 0 && bytes.last() == 0 {
        bytes.drop_last()
    } else {
        bytes
    }
}

/// The device path a byte-array property holds: its bytes without a trailing
/// NUL, when they are valid UTF-8.
pub open spec fn device_text_view(bytes: Option<Vec<u8>>) -> Option<Seq<char>> {
    match bytes {
        Some(v) => {
            let t = without_trailing_nul(v@);
            if valid_utf8(t) {
                Some(decode_utf8(t))
            } else {
                None
            }
        },
        None => None,
    }
}

/// `std::str::from_utf8` of `bytes`: the text they encode when they are valid
/// UTF-8, and nothing otherwise.
#[verifier::external_body]
fn utf8_text(bytes: &[u8]) -> (r: Option<String>)
    ensures
        r is Some <==> valid_utf8(bytes@),
        r matches Some(s) ==> s@ == decode_utf8(bytes@),
{
    match std::str::from_utf8(bytes) {
        Ok(s) => Some(s.to_string()),
        Err(_) => None,
    }
}

fn device_text(bytes: &Option<Vec<u8>>) -> (r: Option<String>)
    ensures
        opt_view(r) == device_text_view(*bytes),
{
    match bytes {
        Some(v) => {
            let n = if v.len() > 0 && v[v.len() - 1] == 0 {
                v.len() - 1
            } else {
                v.len()
            };
            let mut t: Vec<u8> = Vec::new();
            let mut i: usize = 0;
            while i < n
                invariant
                    n <= v.len(),
                    i <= n,
                    t@ == v@.take(i as int),
                decreases n - i,
            {
                t.push(v[i]);
                i = i + 1;
                assert(t@ =~= v@.take(i as int));
            }
            assert(t@ =~= without_trailing_nul(v@));
            utf8_text(t.as_slice())
        },
        None => None,
    }
}

// ---------------------------------------------------------------------------
// Drives
// ---------------------------------------------------------------------------

/// A UDisks2 drive object: its path names a drive and it has the Drive interface.
pub open spec fn is_drive_object(o: ManagedObject) -> bool {
    has_infix(o.path@, "drives/"@) && o.drive is Some
}

/// The last drive object among `objs` at `path`, or `-1`.
pub open spec fn drive_object_index(objs: Seq<ManagedObject>, path: Seq<char>) -> int
    decreases objs.len(),
{
    if objs.len() == 0 {
        -1
    } else if is_drive_object(objs.last()) && objs.last().path@ == path {
        objs.len() - 1
    } else {
        drive_object_index(objs.drop_last(), path)
    }
}

/// The text a property holds, or the empty text.
pub open spec fn text_or_empty(o: Option<String>) -> Seq<char> {
    match o {
        Some(s) => s@,
        None => Seq::empty(),
    }
}

/// Whether the drive at `path` is removable, and the name its vendor and model give.
pub open spec fn drive_meta_view(objs: Seq<ManagedObject>, path: Seq<char>) -> (
    bool,
    Option<Seq<char>>,
) {
    let j = drive_object_index(objs, path);
    if 0 <= j < objs.len() {
        match objs[j].drive {
            Some(d) => (
                flag_or(d.removable, false),
                combined_name(text_or_empty(d.vendor), text_or_empty(d.model)),
            ),
            None => (false, None),
        }
    } else {
        (false, None)
    }
}

/// A whole-disk block device that may be offered: not a partition, not
/// flagged as system or ignored, partitionable, and writable.
pub open spec fn is_offered_block(o: ManagedObject) -> bool {
    &&& has_infix(o.path@, "block_devices/"@)
    &&& !o.has_partition_interface
    &&& match o.block {
        Some(b) => {
            &&& !flag_or(b.hint_system, true)
            &&& !flag_or(b.hint_ignore, false)
            &&& flag_or(b.hint_partitionable, false)
            &&& !flag_or(b.read_only, false)
        },
        None => false,
    }
}

/// The drive object path of a block object, or the empty text.
pub open spec fn drive_path_or_empty(o: ManagedObject) -> Seq<char> {
    match block_drive_path(o) {
        Some(p) => p,
        None => Seq::empty(),
    }
}

/// The device file of a block object: `PreferredDevice`, else `Device`, else `/dev/unknown`.
pub open spec fn device_path_view(o: ManagedObject) -> Seq<char> {
    match o.block {
        Some(b) => match device_text_view(b.preferred_device) {
            Some(p) => p,
            None => match device_text_view(b.device) {
                Some(p) => p,
                None => "/dev/unknown"@,
            },
        },
        None => "/dev/unknown"@,
    }
}

/// The drive offered for block object `o`, when there is one; `all` holds the
/// drive objects its removability and model come from.
pub open spec fn offered_drive(o: ManagedObject, all: Seq<ManagedObject>) -> Option<DriveView> {
    let dop = drive_path_or_empty(o);
    let meta = drive_meta_view(all, dop);
    if is_offered_block(o) && meta.0 {
        let b = o.block.unwrap();
        let device = device_path_view(o);
        Some(
            DriveView {
                path: match path_file_name(device) {
                    Some(n) => n,
                    None => "unknown"@,
                },
                device_path: device,
                size: match b.size {
                    Some(n) => n,
                    None => 0,
                },
                label: opt_view(b.id_label),
                model: meta.1,
                id_type: opt_view(b.id_type),
                is_removable: true,
                mount_points: Seq::empty(),
                object_path: o.path@,
                drive_object_path: dop,
            },
        )
    } else {
        None
    }
}

/// The drives offered for the objects `objs`, in their order.
pub open spec fn offered_drives(objs: Seq<ManagedObject>, all: Seq<ManagedObject>) -> Seq<
    DriveView,
>
    decreases objs.len(),
{
    if objs.len() == 0 {
        Seq::empty()
    } else {
        let rest = offered_drives(objs.drop_last(), all);
        match offered_drive(objs.last(), all) {
            Some(d) => rest.push(d),
            None => rest,
        }
    }
}

fn bool_or(o: Option<bool>, default: bool) -> (r: bool)
    ensures
        r == flag_or(o, default),
{
    match o {
        Some(b) => b,
        None => default,
    }
}

fn clone_text(o: &Option<String>) -> (r: Option<String>)
    ensures
        opt_view(r) == opt_view(*o),
{
    match o {
        Some(s) => Some(s.clone()),
        None => None,
    }
}

fn text_or_empty_str(o: &Option<String>) -> (r: &str)
    ensures
        r@ == text_or_empty(*o),
{
    proof {
        reveal_strlit("");
    }
    match o {
        Some(s) => s.as_str(),
        None => "",
    }
}

/// Whether `o` is a drive object at `path`.
fn drive_object_at(o: &ManagedObject, path: &str) -> (r: bool)
    ensures
        r == (is_drive_object(*o) && o.path@ == path@),
{
    o.drive.is_some() && str_contains(o.path.as_str(), "drives/") && str_equal(
        o.path.as_str(),
        path,
    )
}

/// Removability and display model of the drive at `path`.
fn drive_meta(objects: &Vec<ManagedObject>, path: &str) -> (r: (bool, Option<String>))
    ensures
        (r.0, opt_view(r.1)) == drive_meta_view(objects@, path@),
{
    let mut found: Option<usize> = None;
    let mut i: usize = 0;
    while i < objects.len()
        invariant
            i <= objects.len(),
            drive_object_index(objects@.take(i as int), path@) == match found {
                Some(j) => j as int,
                None => -1,
            },
            found matches Some(j) ==> j < i,
        decreases objects.len() - i,
    {
        assert(objects@.take(i + 1).drop_last() =~= objects@.take(i as int));
        assert(objects@.take(i + 1).last() == objects@[i as int]);
        if drive_object_at(&objects[i], path) {
            found = Some(i);
        }
        i = i + 1;
    }
    assert(objects@.take(objects.len() as int) =~= objects@);
    match found {
        Some(j) => match &objects[j].drive {
            Some(d) => {
                let removable = bool_or(d.removable, false);
                let model = combine_vendor_model(
                    text_or_empty_str(&d.vendor),
                    text_or_empty_str(&d.model),
                );
                (removable, model)
            },
            None => (false, None),
        },
        None => (false, None),
    }
}

/// Whether block object `o` may be offered.
fn offered_block(o: &ManagedObject) -> (r: bool)
    ensures
        r == is_offered_block(*o),
{
    if !str_contains(o.path.as_str(), "block_devices/") || o.has_partition_interface {
        return false;
    }
    match &o.block {
        Some(b) => !bool_or(b.hint_system, true) && !bool_or(b.hint_ignore, false) && bool_or(
            b.hint_partitionable,
            false,
        ) && !bool_or(b.read_only, false),
        None => false,
    }
}

/// The drive offered for block object `o`, if any.
fn drive_for_object(o: &ManagedObject, objects: &Vec<ManagedObject>) -> (r: Option<Drive>)
    ensures
        match r {
            Some(d) => offered_drive(*o, objects@) == Some(d@),
            None => offered_drive(*o, objects@) is None,
        },
{
    let dop = match &o.block {
        Some(b) => match &b.drive {
            Some(p) => p.clone(),
            None => String::new(),
        },
        None => String::new(),
    };
    assert(dop@ == drive_path_or_empty(*o));
    let (removable, model) = drive_meta(objects, dop.as_str());
    if !offered_block(o) || !removable {
        return None;
    }
    match &o.block {
        Some(b) => {
            let device = match device_text(&b.preferred_device) {
                Some(p) => p,
                None => match device_text(&b.device) {
                    Some(p) => p,
                    None => String::from_str("/dev/unknown"),
                },
            };
            let name = match file_name_of(device.as_str()) {
                Some(n) => n,
                None => String::from_str("unknown"),
            };
            let size = match b.size {
                Some(n) => n,
                None => 0,
            };
            let mount_points: Vec<String> = Vec::new();
            let d = Drive {
                path: name,
                device_path: device,
                size,
                label: clone_text(&b.id_label),
                model,
                id_type: clone_text(&b.id_type),
                is_removable: removable,
                mount_points,
                object_path: o.path.clone(),
                drive_object_path: dop,
            };
            assert(views(d.mount_points@) =~= Seq::<Seq<char>>::empty());
            Some(d)
        },
        None => None,
    }
}

/// Lists the removable whole disks (not partitions) among UDisks2's objects.
pub struct UDisksService;

impl UDisksService {
    /// The removable whole disks among `objects`, ordered by device name.
    pub fn drives_from_objects(objects: &Vec<ManagedObject>) -> (r: Vec<Drive>)
        ensures
            views(r@).to_multiset() == offered_drives(objects@, objects@).to_multiset(),
            sorted_keys(keys(r@), false),
    {
        let mut drives: Vec<Drive> = Vec::new();
        let mut i: usize = 0;
        while i < objects.len()
            invariant
                i <= objects.len(),
                views(drives@) == offered_drives(objects@.take(i as int), objects@),
            decreases objects.len() - i,
        {
            let ghost before = drives@;
            assert(objects@.take(i + 1).drop_last() =~= objects@.take(i as int));
            assert(objects@.take(i + 1).last() == objects@[i as int]);
            match drive_for_object(&objects[i], objects) {
                Some(d) => {
                    let ghost dg = d;
                    drives.push(d);
                    proof {
                        lemma_views_push(before, dg);
                    }
                },
                None => {},
            }
            i = i + 1;
        }
        assert(objects@.take(objects.len() as int) =~= objects@);
        sort_by_key(drives, false)
    }
}

/// Each drive offered for `objs` comes from one of them that is an offered
/// whole-disk block device (not a partition), is removable, and has no mount
/// points recorded.
proof fn lemma_offered_drives_shape(objs: Seq<ManagedObject>, all: Seq<ManagedObject>)
    ensures
        forall|i: int|
            0 <= i < offered_drives(objs, all).len() ==> {
                let d = #[trigger] offered_drives(objs, all)[i];
                &&& d.is_removable
                &&& has_infix(d.object_path, "block_devices/"@)
                &&& d.mount_points.len() == 0
                &&& exists|j: int|
                    0 <= j < objs.len() && objs[j].path@ == d.object_path && is_offered_block(
                        #[trigger] objs[j],
                    )
            },
    decreases objs.len(),
{
    if objs.len() > 0 {
        let prev = objs.drop_last();
        lemma_offered_drives_shape(prev, all);
        let rest = offered_drives(prev, all);
        let all_d = offered_drives(objs, all);
        assert forall|i: int| 0 <= i < all_d.len() implies {
            let d = #[trigger] all_d[i];
            &&& d.is_removable
            &&& has_infix(d.object_path, "block_devices/"@)
            &&& d.mount_points.len() == 0
            &&& exists|j: int|
                0 <= j < objs.len() && objs[j].path@ == d.object_path && is_offered_block(
                    #[trigger] objs[j],
                )
        } by {
            if i < rest.len() {
                assert(all_d[i] == rest[i]);
                let j = choose|j: int|
                    0 <= j < prev.len() && prev[j].path@ == rest[i].object_path && is_offered_block(
                        #[trigger] prev[j],
                    );
                assert(objs[j] == prev[j]);
            } else {
                let k = objs.len() - 1;
                assert(objs[k] == objs.last());
            }
        }
    }
}

/// The drives listed from UDisks2's objects are all removable whole disks:
/// each comes from a block device object under `block_devices/` that is not
/// a partition (nor system, ignored, unpartitionable or read-only), is marked
/// removable, and has no mount points recorded.
pub proof fn law_listed_drives_are_removable_disks(
    objects: Seq<ManagedObject>,
    listed: Seq<DriveView>,
)
    requires
        listed.to_multiset() == offered_drives(objects, objects).to_multiset(),
    ensures
        forall|i: int|
            0 <= i < listed.len() ==> {
                &&& (#[trigger] listed[i]).is_removable
                &&& has_infix(listed[i].object_path, "block_devices/"@)
                &&& listed[i].mount_points.len() == 0
                &&& exists|j: int|
                    0 <= j < objects.len() && objects[j].path@ == listed[i].object_path
                        && !objects[j].has_partition_interface && is_offered_block(
                        #[trigger] objects[j],
                    )
            },
{
    broadcast use vstd::seq_lib::group_to_multiset_ensures;

    lemma_offered_drives_shape(objects, objects);
    let offered = offered_drives(objects, objects);
    assert forall|i: int| 0 <= i < listed.len() implies {
        &&& (#[trigger] listed[i]).is_removable
        &&& has_infix(listed[i].object_path, "block_devices/"@)
        &&& listed[i].mount_points.len() == 0
        &&& exists|j: int|
            0 <= j < objects.len() && objects[j].path@ == listed[i].object_path
                && !objects[j].has_partition_interface && is_offered_block(#[trigger] objects[j])
    } by {
        assert(listed.to_multiset().count(listed[i]) > 0);
        assert(offered.contains(listed[i]));
        let m = choose|m: int| 0 <= m < offered.len() && offered[m] == listed[i];
        assert(offered[m] == listed[i]);
        let j = choose|j: int|
            0 <= j < objects.len() && objects[j].path@ == offered[m].object_path
                && is_offered_block(#[trigger] objects[j]);
        assert(!objects[j].has_partition_interface);
    }
}

/// How many of `objs` give the drive `d`.
pub open spec fn producers(objs: Seq<ManagedObject>, all: Seq<ManagedObject>, d: DriveView) -> nat
    decreases objs.len(),
{
    if objs.len() == 0 {
        0
    } else {
        producers(objs.drop_last(), all, d) + if offered_drive(objs.last(), all) == Some(d) {
            1nat
        } else {
            0nat
        }
    }
}

/// Each drive offered for `objs` is the drive offered for one of them.
proof fn lemma_offered_drives_origin(objs: Seq<ManagedObject>, all: Seq<ManagedObject>)
    ensures
        forall|i: int|
            0 <= i < offered_drives(objs, all).len() ==> exists|j: int|
                0 <= j < objs.len() && offered_drive(#[trigger] objs[j], all) == Some(
                    #[trigger] offered_drives(objs, all)[i],
                ),
    decreases objs.len(),
{
    if objs.len() > 0 {
        let prev = objs.drop_last();
        lemma_offered_drives_origin(prev, all);
        let rest = offered_drives(prev, all);
        let all_d = offered_drives(objs, all);
        assert forall|i: int| 0 <= i < all_d.len() implies exists|j: int|
            0 <= j < objs.len() && offered_drive(#[trigger] objs[j], all) == Some(
                #[trigger] all_d[i],
            ) by {
            if i < rest.len() {
                assert(all_d[i] == rest[i]);
                let j = choose|j: int|
                    0 <= j < prev.len() && offered_drive(#[trigger] prev[j], all) == Some(
                        #[trigger] rest[i],
                    );
                assert(objs[j] == prev[j]);
            } else {
                assert(objs[objs.len() - 1] == objs.last());
            }
        }
    }
}

/// The number of times `d` is offered is the number of objects that give it.
proof fn lemma_offered_count(objs: Seq<ManagedObject>, all: Seq<ManagedObject>, d: DriveView)
    ensures
        offered_drives(objs, all).to_multiset().count(d) == producers(objs, all, d),
    decreases objs.len(),
{
    broadcast use vstd::seq_lib::group_to_multiset_ensures, vstd::multiset::group_multiset_axioms;

    if objs.len() == 0 {
        assert(offered_drives(objs, all) =~= Seq::<DriveView>::empty());
    } else {
        lemma_offered_count(objs.drop_last(), all, d);
    }
}

proof fn lemma_producers_count(
    objs: Seq<ManagedObject>,
    all: Seq<ManagedObject>,
    d: DriveView,
    j: int,
)
    requires
        forall|k: int| 0 <= k < objs.len() && k != j ==> offered_drive(#[trigger] objs[k], all) != Some(d),
    ensures
        producers(objs, all, d) == (if 0 <= j < objs.len() && offered_drive(objs[j], all) == Some(d) {
            1nat
        } else {
            0nat
        }),
    decreases objs.len(),
{
    if objs.len() > 0 {
        let prev = objs.drop_last();
        assert forall|k: int| 0 <= k < prev.len() && k != j implies offered_drive(
            #[trigger] prev[k],
            all,
        ) != Some(d) by {
            assert(prev[k] == objs[k]);
        }
        lemma_producers_count(prev, all, d, j);
        if 0 <= j < prev.len() {
            assert(prev[j] == objs[j]);
        }
        assert(objs.last() == objs[objs.len() - 1]);
    }
}

/// No two of `objs` share a path (as the keys of UDisks2's object map).
pub open spec fn distinct_paths(objs: Seq<ManagedObject>) -> bool {
    forall|a: int, b: int| 0 <= a < b < objs.len() ==> objs[a].path@ != objs[b].path@
}

/// For objects with distinct paths, the listing holds exactly one drive per
/// object that is an offered whole-disk block device of a removable drive
/// (the drive offered for it, once), none for any other object, and nothing
/// else: every listed drive is the one offered for some object.
pub proof fn law_one_drive_per_offered_object(objects: Seq<ManagedObject>, listed: Seq<DriveView>)
    requires
        listed.to_multiset() == offered_drives(objects, objects).to_multiset(),
        distinct_paths(objects),
    ensures
        forall|j: int|
            0 <= j < objects.len() ==> match offered_drive(#[trigger] objects[j], objects) {
                Some(d) => {
                    &&& listed.to_multiset().count(d) == 1
                    &&& forall|i: int|
                        0 <= i < listed.len() && listed[i].object_path == objects[j].path@
                            ==> listed[i] == d
                },
                None => forall|i: int|
                    0 <= i < listed.len() ==> listed[i].object_path != objects[j].path@,
            },
        forall|j: int|
            0 <= j < objects.len() ==> (offered_drive(#[trigger] objects[j], objects) is Some
                <==> (is_offered_block(objects[j]) && drive_meta_view(
                objects,
                drive_path_or_empty(objects[j]),
            ).0)),
        forall|i: int|
            0 <= i < listed.len() ==> exists|j: int|
                0 <= j < objects.len() && offered_drive(#[trigger] objects[j], objects) == Some(
                    #[trigger] listed[i],
                ),
{
    broadcast use vstd::seq_lib::group_to_multiset_ensures;

    let offered = offered_drives(objects, objects);
    lemma_offered_drives_origin(objects, objects);
    // Every listed drive is offered for some object.
    assert forall|i: int| 0 <= i < listed.len() implies exists|j: int|
        0 <= j < objects.len() && offered_drive(#[trigger] objects[j], objects) == Some(
            #[trigger] listed[i],
        ) by {
        assert(listed.to_multiset().count(listed[i]) > 0);
        assert(offered.contains(listed[i]));
        let m = choose|m: int| 0 <= m < offered.len() && offered[m] == listed[i];
        assert(offered[m] == listed[i]);
    }
    assert forall|j: int| 0 <= j < objects.len() implies match offered_drive(
        #[trigger] objects[j],
        objects,
    ) {
        Some(d) => {
            &&& listed.to_multiset().count(d) == 1
            &&& forall|i: int|
                0 <= i < listed.len() && listed[i].object_path == objects[j].path@ ==> listed[i]
                    == d
        },
        None => forall|i: int|
            0 <= i < listed.len() ==> listed[i].object_path != objects[j].path@,
    } by {
        // A drive offered for object k carries k's path, and paths are distinct.
        assert forall|i: int|
            0 <= i < listed.len() && listed[i].object_path == objects[j].path@ implies offered_drive(
            objects[j],
            objects,
        ) == Some(listed[i]) by {
            let k = choose|k: int|
                0 <= k < objects.len() && offered_drive(#[trigger] objects[k], objects) == Some(
                    listed[i],
                );
            if k != j {
                if k < j {
                    assert(objects[k].path@ != objects[j].path@);
                } else {
                    assert(objects[j].path@ != objects[k].path@);
                }
            }
        }
        match offered_drive(objects[j], objects) {
            Some(d) => {
                assert forall|k: int| 0 <= k < objects.len() && k != j implies offered_drive(
                    #[trigger] objects[k],
                    objects,
                ) != Some(d) by {
                    if offered_drive(objects[k], objects) == Some(d) {
                        if k < j {
                            assert(objects[k].path@ != objects[j].path@);
                        } else {
                            assert(objects[j].path@ != objects[k].path@);
                        }
                    }
                }
                lemma_producers_count(objects, objects, d, j);
                lemma_offered_count(objects, objects, d);
            },
            None => {},
        }
    }
}

/// When UDisks2 gives every offered block device a device path under `/dev/`,
/// every listed drive's device path is under `/dev/`.
pub proof fn law_listed_device_paths_under_dev(objects: Seq<ManagedObject>, listed: Seq<DriveView>)
    requires
        listed.to_multiset() == offered_drives(objects, objects).to_multiset(),
        forall|j: int|
            0 <= j < objects.len() && is_offered_block(#[trigger] objects[j]) ==> has_prefix(
                device_path_view(objects[j]),
                "/dev/"@,
            ),
    ensures
        forall|i: int| 0 <= i < listed.len() ==> has_prefix(#[trigger] listed[i].device_path, "/dev/"@),
{
    broadcast use vstd::seq_lib::group_to_multiset_ensures;

    let offered = offered_drives(objects, objects);
    lemma_offered_drives_origin(objects, objects);
    assert forall|i: int| 0 <= i < listed.len() implies has_prefix(
        #[trigger] listed[i].device_path,
        "/dev/"@,
    ) by {
        assert(listed.to_multiset().count(listed[i]) > 0);
        assert(offered.contains(listed[i]));
        let m = choose|m: int| 0 <= m < offered.len() && offered[m] == listed[i];
        let j = choose|j: int|
            0 <= j < objects.len() && offered_drive(#[trigger] objects[j], objects) == Some(
                offered[m],
            );
        assert(is_offered_block(objects[j]));
    }
}

/// The last drive object at `path`, when there is one, is a drive object at `path`.
proof fn lemma_drive_object_index(objs: Seq<ManagedObject>, path: Seq<char>)
    ensures
        -1 <= drive_object_index(objs, path) < objs.len(),
        0 <= drive_object_index(objs, path) ==> is_drive_object(
            objs[drive_object_index(objs, path)],
        ) && objs[drive_object_index(objs, path)].path@ == path,
    decreases objs.len(),
{
    if objs.len() > 0 {
        lemma_drive_object_index(objs.drop_last(), path);
        let j = drive_object_index(objs.drop_last(), path);
        if 0 <= j {
            assert(objs.drop_last()[j] == objs[j]);
        }
    }
}

/// Whether the drive `d` is what the block object `block` of the removable
/// drive object `drive` gives: the block's path, its label and filesystem
/// type, its size (0 when absent), its device file (`PreferredDevice`, else
/// `Device`, else `/dev/unknown`) and that file's name, the drive's path
/// (which the block's `Drive` property names) and its vendor and model.
pub open spec fn drive_from_objects(d: DriveView, block: ManagedObject, drive: ManagedObject) -> bool {
    match (block.block, drive.drive) {
        (Some(b), Some(dp)) => {
            &&& d.object_path == block.path@
            &&& d.label == opt_view(b.id_label)
            &&& d.id_type == opt_view(b.id_type)
            &&& d.size == match b.size {
                Some(n) => n,
                None => 0u64,
            }
            &&& d.device_path == match device_text_view(b.preferred_device) {
                Some(p) => p,
                None => match device_text_view(b.device) {
                    Some(p) => p,
                    None => "/dev/unknown"@,
                },
            }
            &&& d.path == match path_file_name(d.device_path) {
                Some(n) => n,
                None => "unknown"@,
            }
            &&& opt_view(b.drive) == Some(drive.path@)
            &&& d.drive_object_path == drive.path@
            &&& has_infix(drive.path@, "drives/"@)
            &&& flag_or(dp.removable, false)
            &&& d.model == combined_name(text_or_empty(dp.vendor), text_or_empty(dp.model))
            &&& d.is_removable
            &&& d.mount_points.len() == 0
        },
        _ => false,
    }
}

/// Whether `d` is built from an offered block object of `objects` and the
/// drive object that block names.
pub open spec fn built_from_some_objects(d: DriveView, objects: Seq<ManagedObject>) -> bool {
    exists|j: int, k: int|
        0 <= j < objects.len() && 0 <= k < objects.len() && is_offered_block(objects[j])
            && #[trigger] drive_from_objects(d, objects[j], objects[k])
}

/// Every listed drive is built from UDisks2's objects: from an offered
/// block object (its path, IdLabel, IdType, Size and device file) and from the
/// removable drive object its `Drive` property names (vendor and model).
pub proof fn law_listed_drive_fields_come_from_its_objects(
    objects: Seq<ManagedObject>,
    listed: Seq<DriveView>,
)
    requires
        listed.to_multiset() == offered_drives(objects, objects).to_multiset(),
    ensures
        forall|i: int| 0 <= i < listed.len() ==> built_from_some_objects(#[trigger] listed[i], objects),
{
    broadcast use vstd::seq_lib::group_to_multiset_ensures;

    let offered = offered_drives(objects, objects);
    lemma_offered_drives_origin(objects, objects);
    assert forall|i: int| 0 <= i < listed.len() implies built_from_some_objects(
        #[trigger] listed[i],
        objects,
    ) by {
        assert(listed.to_multiset().count(listed[i]) > 0);
        assert(offered.contains(listed[i]));
        let m = choose|m: int| 0 <= m < offered.len() && offered[m] == listed[i];
        let j = choose|j: int|
            0 <= j < objects.len() && offered_drive(#[trigger] objects[j], objects) == Some(
                offered[m],
            );
        let o = objects[j];
        let dop = drive_path_or_empty(o);
        lemma_drive_object_index(objects, dop);
        let k = drive_object_index(objects, dop);
        assert(offered[m] == listed[i]);
        assert(drive_meta_view(objects, dop).0);
        assert(objects[k].path@ == dop);
        if block_drive_path(o) is None {
            reveal_strlit("drives/");
            assert(has_infix(dop, "drives/"@));
            assert(false);
        }
        assert(drive_from_objects(listed[i], objects[j], objects[k]));
    }
}

} // verus!
