//! Filesystem types and the UDisks2 calls that reformat a whole drive.
use vstd::prelude::*;
use vstd::multiset::Multiset;

use crate::ordering::{
    keys, lemma_reverse_sorted, lemma_sorted_unique, lemma_views_push, sort_by_key, sorted_keys,
    views,
};
use crate::services::objects::{block_drive_path, ManagedObject};
use crate::text::str_equal;

verus! {

broadcast use vstd::seq_lib::group_to_multiset_ensures;

/// Byte offset at which the single new partition starts (1 MiB).
pub const PARTITION_OFFSET: u64 = 1_048_576;

/// Size given for the new partition: 0 asks for all the remaining space.
pub const PARTITION_SIZE_MAX: u64 = 0;

/// A filesystem that a drive can be formatted with.
#[derive(Clone, Copy, Debug, PartialEq, Eq, Structural)]
pub enum FilesystemType {
    Fat32,
    ExFat,
    Ntfs,
    Ext4,
}

impl FilesystemType {
    /// The name UDisks2 knows the filesystem by.
    pub open spec fn udisks2_name_view(self) -> Seq<char> {
        match self {
            FilesystemType::Fat32 => "vfat"@,
            FilesystemType::ExFat => "exfat"@,
            FilesystemType::Ntfs => "ntfs"@,
            FilesystemType::Ext4 => "ext4"@,
        }
    }

    /// The name shown to the user.
    pub open spec fn display_name_view(self) -> Seq<char> {
        match self {
            FilesystemType::Fat32 => "FAT32"@,
            FilesystemType::ExFat => "exFAT"@,
            FilesystemType::Ntfs => "NTFS"@,
            FilesystemType::Ext4 => "ext4"@,
        }
    }

    /// The partition table the drive gets: GPT for ext4, MBR ("dos") otherwise.
    pub open spec fn partition_table_view(self) -> Seq<char> {
        match self {
            FilesystemType::Ext4 => "gpt"@,
            _ => "dos"@,
        }
    }

    /// The most characters a volume label of this filesystem may hold.
    pub open spec fn label_limit(self) -> u32 {
        match self {
            FilesystemType::Fat32 => 11,
            FilesystemType::ExFat => 11,
            FilesystemType::Ntfs => 32,
            FilesystemType::Ext4 => 16,
        }
    }

    /// Every filesystem type, in the order the user is offered them.
    pub open spec fn all_view() -> Seq<FilesystemType> {
        seq![FilesystemType::Fat32, FilesystemType::ExFat, FilesystemType::Ntfs, FilesystemType::Ext4]
    }

    pub fn udisks2_name(&self) -> (r: &'static str)
        ensures
            r@ == self.udisks2_name_view(),
    {
        match self {
            FilesystemType::Fat32 => "vfat",
            FilesystemType::ExFat => "exfat",
            FilesystemType::Ntfs => "ntfs",
            FilesystemType::Ext4 => "ext4",
        }
    }

    pub fn display_name(&self) -> (r: &'static str)
        ensures
            r@ == self.display_name_view(),
    {
        match self {
            FilesystemType::Fat32 => "FAT32",
            FilesystemType::ExFat => "exFAT",
            FilesystemType::Ntfs => "NTFS",
            FilesystemType::Ext4 => "ext4",
        }
    }

    pub fn partition_table_type(&self) -> (r: &'static str)
        ensures
            r@ == self.partition_table_view(),
    {
        match self {
            FilesystemType::Ext4 => "gpt",
            _ => "dos",
        }
    }

    pub fn max_label_length(&self) -> (r: u32)
        ensures
            r == self.label_limit(),
    {
        match self {
            FilesystemType::Fat32 => 11,
            FilesystemType::ExFat => 11,
            FilesystemType::Ntfs => 32,
            FilesystemType::Ext4 => 16,
        }
    }

    pub fn all() -> (r: [FilesystemType; 4])
        ensures
            r@ == Self::all_view(),
    {
        let r = [FilesystemType::Fat32, FilesystemType::ExFat, FilesystemType::Ntfs, FilesystemType::Ext4];
        assert(r@ =~= Self::all_view());
        r
    }

    /// The type at position `index` of `all()`, or FAT32 when there is none there.
    pub fn at_selection(index: u32) -> (r: FilesystemType)
        ensures
            r == (if index < 4 {
                Self::all_view()[index as int]
            } else {
                FilesystemType::Fat32
            }),
    {
        let all = Self::all();
        if index < 4 {
            all[index as usize]
        } else {
            FilesystemType::Fat32
        }
    }
}

/// The partition name for `CreatePartitionAndFormat`: the label on GPT (empty
/// without one); always empty on MBR, which has no partition names.
pub open spec fn partition_name_view(fs_type: FilesystemType, label: Option<Seq<char>>) -> Seq<
    char,
> {
    if fs_type.partition_table_view() == "gpt"@ {
        match label {
            Some(l) => l,
            None => Seq::empty(),
        }
    } else {
        Seq::empty()
    }
}

/// The view of an optional borrowed text.
pub open spec fn opt_str_view(o: Option<&str>) -> Option<Seq<char>> {
    match o {
        Some(s) => Some(s@),
        None => None,
    }
}

pub fn partition_name_for_create(fs_type: FilesystemType, label: Option<&str>) -> (r: String)
    ensures
        r@ == partition_name_view(fs_type, opt_str_view(label)),
{
    if str_equal(fs_type.partition_table_type(), "gpt") {
        match label {
            Some(l) => String::from_str(l),
            None => String::new(),
        }
    } else {
        String::new()
    }
}

/// Whether `o` is a partition whose block device belongs to the drive `drive`.
pub open spec fn is_partition_of(o: ManagedObject, drive: Seq<char>) -> bool {
    o.has_partition_interface && block_drive_path(o) == Some(drive)
}

/// The paths of the partitions of `drive` among `objs`, in the order of `objs`.
pub open spec fn partition_paths_view(objs: Seq<ManagedObject>, drive: Seq<char>) -> Seq<
    Seq<char>,
>
    decreases objs.len(),
{
    if objs.len() == 0 {
        Seq::empty()
    } else {
        let rest = partition_paths_view(objs.drop_last(), drive);
        if is_partition_of(objs.last(), drive) {
            rest.push(objs.last().path@)
        } else {
            rest
        }
    }
}

/// Whether `o` is a partition of the drive at `drive`.
fn partition_of(o: &ManagedObject, drive: &str) -> (r: bool)
    ensures
        r == is_partition_of(*o, drive@),
{
    if !o.has_partition_interface {
        return false;
    }
    match &o.block {
        Some(b) => match &b.drive {
            Some(d) => str_equal(d.as_str(), drive),
            None => false,
        },
        None => false,
    }
}

/// The partitions of the drive at `drive_object_path`, by path, in ascending order.
pub fn partition_paths_for_drive(objects: &Vec<ManagedObject>, drive_object_path: &str) -> (r: Vec<
    String,
>)
    ensures
        views(r@).to_multiset() == partition_paths_view(objects@, drive_object_path@).to_multiset(),
        sorted_keys(keys(r@), false),
{
    let mut paths: Vec<String> = Vec::new();
    let mut i: usize = 0;
    while i < objects.len()
        invariant
            i <= objects.len(),
            views(paths@) == partition_paths_view(objects@.take(i as int), drive_object_path@),
        decreases objects.len() - i,
    {
        let ghost before = paths@;
        if partition_of(&objects[i], drive_object_path) {
            paths.push(objects[i].path.clone());
            assert(views(paths@) =~= views(before).push(objects@[i as int].path@));
        }
        assert(objects@.take(i + 1).drop_last() =~= objects@.take(i as int));
        i = i + 1;
    }
    assert(objects@.take(objects.len() as int) =~= objects@);
    sort_by_key(paths, false)
}

/// `paths`, largest first: the order in which partitions are deleted.
pub fn partition_delete_order(paths: &[String]) -> (r: Vec<String>)
    ensures
        views(r@).to_multiset() == views(paths@).to_multiset(),
        sorted_keys(keys(r@), true),
        sorted_keys(views(paths@), false) ==> views(r@) == views(paths@).reverse(),
{
    let mut ordered: Vec<String> = Vec::new();
    let mut i: usize = 0;
    while i < paths.len()
        invariant
            i <= paths.len(),
            views(ordered@) == views(paths@.take(i as int)),
        decreases paths.len() - i,
    {
        let ghost before = ordered@;
        ordered.push(paths[i].clone());
        proof {
            assert(ordered@ =~= before.push(paths@[i as int]));
            assert(paths@.take(i + 1) =~= paths@.take(i as int).push(paths@[i as int]));
            lemma_views_push(before, paths@[i as int]);
            lemma_views_push(paths@.take(i as int), paths@[i as int]);
        }
        i = i + 1;
    }
    assert(paths@.take(paths.len() as int) =~= paths@);
    let r = sort_by_key(ordered, true);
    proof {
        assert(keys(r@) =~= views(r@));
        if sorted_keys(views(paths@), false) {
            lemma_reverse_sorted(views(paths@), false);
            lemma_sorted_unique(views(r@), views(paths@).reverse(), true);
        }
    }
    r
}

/// One UDisks2 call that a format makes.
#[derive(Clone, Debug)]
pub enum FormatStep {
    /// `Filesystem.Unmount` with `force`; a failure is ignored.
    Unmount { object_path: String },
    /// `Partition.Delete` with `tear-down`; a failure is ignored.
    DeletePartition { object_path: String },
    /// `Block.Format` of the whole disk with a partition table type and
    /// `tear-down`; a failure ends the format.
    CreatePartitionTable { disk_object_path: String, table_type: String },
    /// `PartitionTable.CreatePartitionAndFormat`; the `label` format option is
    /// given only when present. A failure ends the format.
    CreatePartitionAndFormat {
        disk_object_path: String,
        offset: u64,
        size: u64,
        partition_name: String,
        filesystem: String,
        label: Option<String>,
    },
}

/// A format step with its texts as views.
pub enum FormatStepView {
    Unmount { object_path: Seq<char> },
    DeletePartition { object_path: Seq<char> },
    CreatePartitionTable { disk_object_path: Seq<char>, table_type: Seq<char> },
    CreatePartitionAndFormat {
        disk_object_path: Seq<char>,
        offset: u64,
        size: u64,
        partition_name: Seq<char>,
        filesystem: Seq<char>,
        label: Option<Seq<char>>,
    },
}

impl View for FormatStep {
    type V = FormatStepView;

    open spec fn view(&self) -> FormatStepView {
        match self {
            FormatStep::Unmount { object_path } => FormatStepView::Unmount {
                object_path: object_path@,
            },
            FormatStep::DeletePartition { object_path } => FormatStepView::DeletePartition {
                object_path: object_path@,
            },
            FormatStep::CreatePartitionTable { disk_object_path, table_type } =>
                FormatStepView::CreatePartitionTable {
                disk_object_path: disk_object_path@,
                table_type: table_type@,
            },
            FormatStep::CreatePartitionAndFormat {
                disk_object_path,
                offset,
                size,
                partition_name,
                filesystem,
                label,
            } => FormatStepView::CreatePartitionAndFormat {
                disk_object_path: disk_object_path@,
                offset: *offset,
                size: *size,
                partition_name: partition_name@,
                filesystem: filesystem@,
                label: match label {
                    Some(l) => Some(l@),
                    None => None,
                },
            },
        }
    }
}

/// What a failed step adds to the error: `None` for the steps whose failure
/// is ignored (unmount, delete), the context message for the two that end the
/// format.
pub open spec fn step_failure_context_view(s: FormatStepView) -> Option<Seq<char>> {
    match s {
        FormatStepView::Unmount { .. } => None,
        FormatStepView::DeletePartition { .. } => None,
        FormatStepView::CreatePartitionTable { .. } => Some(
            "Falha ao recriar tabela de partições"@,
        ),
        FormatStepView::CreatePartitionAndFormat { .. } => Some(
            "Falha ao criar partição e formatar"@,
        ),
    }
}

/// How a failure of `step` is handled: `None` when it is ignored and the
/// format goes on, else the message that ends the format, put before the
/// UDisks2 error.
pub fn step_failure_context(step: &FormatStep) -> (r: Option<&'static str>)
    ensures
        opt_str_view(r) == step_failure_context_view(step@),
{
    match step {
        FormatStep::Unmount { .. } => None,
        FormatStep::DeletePartition { .. } => None,
        FormatStep::CreatePartitionTable { .. } => Some("Falha ao recriar tabela de partições"),
        FormatStep::CreatePartitionAndFormat { .. } => Some("Falha ao criar partição e formatar"),
    }
}

/// The label given as a format option: only a non-empty one.
pub open spec fn format_label_view(label: Option<Seq<char>>) -> Option<Seq<char>> {
    match label {
        Some(l) => if l.len() > 0 {
            Some(l)
        } else {
            None
        },
        None => None,
    }
}

/// The last two steps of a format: a new partition table, then one partition
/// spanning the disk, formatted with the filesystem.
pub open spec fn final_steps_view(
    disk: Seq<char>,
    fs_type: FilesystemType,
    label: Option<Seq<char>>,
) -> Seq<FormatStepView> {
    seq![
        FormatStepView::CreatePartitionTable {
            disk_object_path: disk,
            table_type: fs_type.partition_table_view(),
        },
        FormatStepView::CreatePartitionAndFormat {
            disk_object_path: disk,
            offset: PARTITION_OFFSET,
            size: PARTITION_SIZE_MAX,
            partition_name: partition_name_view(fs_type, label),
            filesystem: fs_type.udisks2_name_view(),
            label: format_label_view(label),
        },
    ]
}

/// The end of every format, for any filesystem and label: a partition table
/// on the disk, GPT for ext4 and MBR ("dos") for the others; then one
/// partition from 1 MiB to the end of the disk with the filesystem's UDisks2
/// name. A non-empty label is given as the format's label option whatever
/// the filesystem (no label, or an empty one, gives none); the partition is
/// named after the label on GPT only.
pub proof fn law_format_ends_with_table_and_labelled_partition(
    disk: Seq<char>,
    fs_type: FilesystemType,
    label: Option<Seq<char>>,
)
    ensures
        final_steps_view(disk, fs_type, label).len() == 2,
        final_steps_view(disk, fs_type, label)[0] == (FormatStepView::CreatePartitionTable {
            disk_object_path: disk,
            table_type: if fs_type == FilesystemType::Ext4 {
                "gpt"@
            } else {
                "dos"@
            },
        }),
        final_steps_view(disk, fs_type, label)[1] == (FormatStepView::CreatePartitionAndFormat {
            disk_object_path: disk,
            offset: 1048576u64,
            size: 0u64,
            partition_name: match label {
                Some(l) => if fs_type == FilesystemType::Ext4 {
                    l
                } else {
                    Seq::<char>::empty()
                },
                None => Seq::<char>::empty(),
            },
            filesystem: match fs_type {
                FilesystemType::Fat32 => "vfat"@,
                FilesystemType::ExFat => "exfat"@,
                FilesystemType::Ntfs => "ntfs"@,
                FilesystemType::Ext4 => "ext4"@,
            },
            label: match label {
                Some(l) => if l.len() > 0 {
                    Some(l)
                } else {
                    None
                },
                None => None,
            },
        }),
{
    reveal_strlit("gpt");
    reveal_strlit("dos");
    if fs_type != FilesystemType::Ext4 {
        assert(fs_type.partition_table_view()[0] != "gpt"@[0]);
    }
}

/// The object path an unmount or delete step acts on.
pub open spec fn step_target(s: FormatStepView) -> Seq<char> {
    match s {
        FormatStepView::Unmount { object_path } => object_path,
        FormatStepView::DeletePartition { object_path } => object_path,
        _ => Seq::empty(),
    }
}

/// The targets of the steps in `s`.
pub open spec fn step_targets(s: Seq<FormatStepView>) -> Seq<Seq<char>> {
    s.map_values(|x: FormatStepView| step_target(x))
}

/// The reformatting of whole drives through UDisks2.
pub struct FormatService;

impl FormatService {
    /// The calls that reformat the disk at `disk_object_path`, which belongs to
    /// the drive at `drive_object_path`, with one partition of `fs_type`:
    /// unmount each partition of the drive (ascending path order), delete
    /// each (descending path order), write a new partition table, then create
    /// and format the partition.
    pub fn format_steps(
        objects: &Vec<ManagedObject>,
        disk_object_path: &str,
        drive_object_path: &str,
        fs_type: FilesystemType,
        label: Option<&str>,
    ) -> (r: Vec<FormatStep>)
        ensures
            ({
                let n = partition_paths_view(objects@, drive_object_path@).len() as int;
                let steps = views(r@);
                let unmounts = steps.subrange(0, n);
                let deletes = steps.subrange(n, 2 * n);
                &&& steps.len() == 2 * n + 2
                &&& forall|i: int| 0 <= i < n ==> #[trigger] unmounts[i] is Unmount
                &&& forall|i: int| 0 <= i < n ==> #[trigger] deletes[i] is DeletePartition
                &&& step_targets(unmounts).to_multiset() == partition_paths_view(
                    objects@,
                    drive_object_path@,
                ).to_multiset()
                &&& sorted_keys(step_targets(unmounts), false)
                &&& step_targets(deletes).to_multiset() == partition_paths_view(
                    objects@,
                    drive_object_path@,
                ).to_multiset()
                &&& sorted_keys(step_targets(deletes), true)
                &&& step_targets(deletes) == step_targets(unmounts).reverse()
                &&& steps.subrange(2 * n, 2 * n + 2) == final_steps_view(
                    disk_object_path@,
                    fs_type,
                    opt_str_view(label),
                )
            }),
            views(r@).last() matches FormatStepView::CreatePartitionAndFormat {
                label: given,
                filesystem,
                ..
            } && filesystem == fs_type.udisks2_name_view() && given == match label {
                Some(l) => if l@.len() > 0 {
                    Some(l@)
                } else {
                    None
                },
                None => None,
            },
    {
        let paths = partition_paths_for_drive(objects, drive_object_path);
        let ordered = partition_delete_order(paths.as_slice());
        let ghost n = partition_paths_view(objects@, drive_object_path@).len() as int;
        proof {
            assert(views(paths@).len() == paths@.len());
            assert(views(ordered@).len() == ordered@.len());
            assert(views(paths@).to_multiset().len() == n);
            assert(views(ordered@).to_multiset().len() == n);
        }
        let mut steps: Vec<FormatStep> = Vec::new();
        let mut i: usize = 0;
        while i < paths.len()
            invariant
                i <= paths.len(),
                paths@.len() == n,
                steps@.len() == i,
                forall|j: int| 0 <= j < i ==> #[trigger] views(steps@)[j] is Unmount,
                step_targets(views(steps@)) == views(paths@).take(i as int),
            decreases paths.len() - i,
        {
            let ghost before = steps@;
            steps.push(FormatStep::Unmount { object_path: paths[i].clone() });
            assert(views(steps@) =~= views(before).push(views(steps@)[i as int]));
            assert(step_targets(views(steps@)) =~= views(paths@).take(i + 1));
            i = i + 1;
        }
        assert(views(steps@).subrange(0, n) =~= views(steps@));
        assert(views(paths@).take(n) =~= views(paths@));
        assert(views(steps@).subrange(n, n + 0) =~= Seq::<FormatStepView>::empty());
        assert(views(ordered@).take(0) =~= Seq::<Seq<char>>::empty());
        let mut k: usize = 0;
        while k < ordered.len()
            invariant
                k <= ordered.len(),
                ordered@.len() == n,
                paths@.len() == n,
                steps@.len() == n + k,
                forall|j: int| 0 <= j < n ==> #[trigger] views(steps@)[j] is Unmount,
                forall|j: int| n <= j < n + k ==> #[trigger] views(steps@)[j] is DeletePartition,
                step_targets(views(steps@).subrange(0, n)) == views(paths@),
                step_targets(views(steps@).subrange(n, n + k)) == views(ordered@).take(
                    k as int,
                ),
            decreases ordered.len() - k,
        {
            let ghost before = steps@;
            steps.push(FormatStep::DeletePartition { object_path: ordered[k].clone() });
            assert(views(steps@) =~= views(before).push(views(steps@)[n + k]));
            assert(views(steps@).subrange(0, n) =~= views(before).subrange(0, n));
            assert(step_targets(views(steps@).subrange(n, n + k + 1)) =~= views(
                ordered@,
            ).take(k + 1));
            k = k + 1;
        }
        let ghost mid = views(steps@);
        let table = String::from_str(fs_type.partition_table_type());
        steps.push(
            FormatStep::CreatePartitionTable {
                disk_object_path: String::from_str(disk_object_path),
                table_type: table,
            },
        );
        let format_label = match label {
            Some(l) => if l.is_empty() {
                None
            } else {
                Some(String::from_str(l))
            },
            None => None,
        };
        let partition_name = partition_name_for_create(fs_type, label);
        steps.push(
            FormatStep::CreatePartitionAndFormat {
                disk_object_path: String::from_str(disk_object_path),
                offset: PARTITION_OFFSET,
                size: PARTITION_SIZE_MAX,
                partition_name,
                filesystem: String::from_str(fs_type.udisks2_name()),
                label: format_label,
            },
        );
        proof {
            let steps_v = views(steps@);
            assert(views(ordered@).take(n as int) =~= views(ordered@));
            assert(steps_v.subrange(0, n) =~= mid.subrange(0, n));
            assert(steps_v.subrange(n, 2 * n) =~= mid.subrange(n, n + n));
            assert forall|i: int| 0 <= i < n implies #[trigger] steps_v.subrange(0, n)[i] is Unmount by {
                assert(steps_v.subrange(0, n)[i] == mid[i]);
            }
            assert forall|i: int| 0 <= i < n implies #[trigger] steps_v.subrange(n, 2 * n)[i] is DeletePartition by {
                assert(steps_v.subrange(n, 2 * n)[i] == mid[n + i]);
            }
            assert(steps_v.subrange(2 * n, 2 * n + 2) =~= final_steps_view(
                disk_object_path@,
                fs_type,
                opt_str_view(label),
            ));
            assert(keys(paths@) =~= views(paths@));
            assert(keys(ordered@) =~= views(ordered@));
        }
        steps
    }
}

} // verus!
