//! What the system around the formatter lacks, and what the user is told:
//! install hints per distribution, missing format tools, an unreachable
//! UDisks2, and the outcome of refreshing the drive list.
use vstd::prelude::*;

use crate::models::{Drive, DriveView};
use crate::ordering::views;
use crate::text::{
    find_prefixed_line, first_with_prefix, joined, lines, lowercase, opt_view, split_lines,
    str_equal, to_lowercase, trim_by, trim_str_by, TrimClass,
};

verus! {

/// Why the formatter cannot reach the disks.
#[derive(Debug, Clone, Copy, PartialEq, Eq, Structural)]
pub enum RuntimeIssueKind {
    DbusUnavailable,
    UDisksUnavailable,
}

/// A problem with the system that stops the formatter from working.
#[derive(Debug, Clone, PartialEq, Eq)]
pub struct RuntimeIssue {
    pub kind: RuntimeIssueKind,
    pub title: String,
    pub detail: String,
}

impl View for RuntimeIssue {
    type V = (RuntimeIssueKind, Seq<char>, Seq<char>);

    open spec fn view(&self) -> (RuntimeIssueKind, Seq<char>, Seq<char>) {
        (self.kind, self.title@, self.detail@)
    }
}

/// How to install what the formatter needs on one kind of system.
#[derive(Debug, Clone, PartialEq, Eq)]
pub struct InstallHint {
    pub label: String,
    pub command: String,
}

impl View for InstallHint {
    type V = (Seq<char>, Seq<char>);

    open spec fn view(&self) -> (Seq<char>, Seq<char>) {
        (self.label@, self.command@)
    }
}

/// What refreshing the drive list found.
#[derive(Debug, Clone)]
pub struct DriveRefreshOutcome {
    pub drives: Vec<Drive>,
    pub runtime_issue: Option<RuntimeIssue>,
    pub format_tools_warning: Option<String>,
}

/// A refresh outcome with its parts as views.
pub struct DriveRefreshOutcomeView {
    pub drives: Seq<DriveView>,
    pub runtime_issue: Option<(RuntimeIssueKind, Seq<char>, Seq<char>)>,
    pub format_tools_warning: Option<Seq<char>>,
}

/// The view of an optional runtime issue.
pub open spec fn opt_issue_view(o: Option<RuntimeIssue>) -> Option<
    (RuntimeIssueKind, Seq<char>, Seq<char>),
> {
    match o {
        Some(i) => Some(i@),
        None => None,
    }
}

impl View for DriveRefreshOutcome {
    type V = DriveRefreshOutcomeView;

    open spec fn view(&self) -> DriveRefreshOutcomeView {
        DriveRefreshOutcomeView {
            drives: views(self.drives@),
            runtime_issue: opt_issue_view(self.runtime_issue),
            format_tools_warning: opt_view(self.format_tools_warning),
        }
    }
}

// ---------------------------------------------------------------------------
// Install hints
// ---------------------------------------------------------------------------

pub open spec fn fedora_command() -> Seq<char> {
    "sudo dnf install gtk4 libadwaita udisks2 polkit dosfstools exfatprogs ntfs-3g e2fsprogs parted"@
}

pub open spec fn debian_command() -> Seq<char> {
    "sudo apt install libgtk-4-1 libadwaita-1-0 udisks2 policykit-1 dosfstools exfatprogs ntfs-3g e2fsprogs parted"@
}

pub open spec fn generic_command() -> Seq<char> {
    "Instale UDisks2, Polkit, GTK4, Libadwaita e as ferramentas dosfstools, exfatprogs, ntfs-3g, e2fsprogs e parted."@
}

pub open spec fn any_linux_command() -> Seq<char> {
    "Fedora: sudo dnf install gtk4 libadwaita udisks2 polkit dosfstools exfatprogs ntfs-3g e2fsprogs parted\nDebian/Ubuntu: sudo apt install libgtk-4-1 libadwaita-1-0 udisks2 policykit-1 dosfstools exfatprogs ntfs-3g e2fsprogs parted"@
}

/// The install hint for the distribution with `os-release` ID `distro_id`:
/// dnf for Fedora, apt for the Debian family, a general list for any other
/// known ID, and both commands when the ID is unknown.
pub open spec fn install_hint_view(distro_id: Option<Seq<char>>) -> (Seq<char>, Seq<char>) {
    match distro_id {
        Some(id) => if id == "fedora"@ {
            ("Fedora"@, fedora_command())
        } else if id == "ubuntu"@ || id == "debian"@ || id == "pop"@ || id == "linuxmint"@ {
            ("Debian/Ubuntu"@, debian_command())
        } else {
            (id, generic_command())
        },
        None => ("Linux"@, any_linux_command()),
    }
}

pub fn install_hint_for_distro(distro_id: Option<&str>) -> (r: InstallHint)
    ensures
        r@ == install_hint_view(
            match distro_id {
                Some(s) => Some(s@),
                None => None,
            },
        ),
        distro_id matches Some(id) && (id@ == "ubuntu"@ || id@ == "debian"@ || id@ == "pop"@
            || id@ == "linuxmint"@) ==> r.label@ == "Debian/Ubuntu"@ && r.command@
            == "sudo apt install libgtk-4-1 libadwaita-1-0 udisks2 policykit-1 dosfstools exfatprogs ntfs-3g e2fsprogs parted"@,
        distro_id matches Some(id) && id@ == "fedora"@ ==> r.label@ == "Fedora"@ && r.command@
            == "sudo dnf install gtk4 libadwaita udisks2 polkit dosfstools exfatprogs ntfs-3g e2fsprogs parted"@,
{
    proof {
        if let Some(id) = distro_id {
            law_install_hint_follows_distribution(id@);
        }
    }
    match distro_id {
        Some(id) => {
            if str_equal(id, "fedora") {
                InstallHint {
                    label: String::from_str("Fedora"),
                    command: String::from_str(
                        "sudo dnf install gtk4 libadwaita udisks2 polkit dosfstools exfatprogs ntfs-3g e2fsprogs parted",
                    ),
                }
            } else if str_equal(id, "ubuntu") || str_equal(id, "debian") || str_equal(id, "pop")
                || str_equal(id, "linuxmint") {
                InstallHint {
                    label: String::from_str("Debian/Ubuntu"),
                    command: String::from_str(
                        "sudo apt install libgtk-4-1 libadwaita-1-0 udisks2 policykit-1 dosfstools exfatprogs ntfs-3g e2fsprogs parted",
                    ),
                }
            } else {
                InstallHint {
                    label: String::from_str(id),
                    command: String::from_str(
                        "Instale UDisks2, Polkit, GTK4, Libadwaita e as ferramentas dosfstools, exfatprogs, ntfs-3g, e2fsprogs e parted.",
                    ),
                }
            }
        },
        None => InstallHint {
            label: String::from_str("Linux"),
            command: String::from_str(
                "Fedora: sudo dnf install gtk4 libadwaita udisks2 polkit dosfstools exfatprogs ntfs-3g e2fsprogs parted\nDebian/Ubuntu: sudo apt install libgtk-4-1 libadwaita-1-0 udisks2 policykit-1 dosfstools exfatprogs ntfs-3g e2fsprogs parted",
            ),
        },
    }
}

/// Which hint a distribution ID gets, for every ID: the apt command (under
/// "Debian/Ubuntu") exactly for ubuntu, debian, pop and linuxmint; the dnf
/// command (under "Fedora") exactly for fedora; any other ID is shown as it
/// is, with the general list of packages.
pub proof fn law_install_hint_follows_distribution(id: Seq<char>)
    ensures
        (install_hint_view(Some(id)).1
            == "sudo apt install libgtk-4-1 libadwaita-1-0 udisks2 policykit-1 dosfstools exfatprogs ntfs-3g e2fsprogs parted"@)
            <==> (id == "ubuntu"@ || id == "debian"@ || id == "pop"@ || id == "linuxmint"@),
        (install_hint_view(Some(id)).1
            == "sudo dnf install gtk4 libadwaita udisks2 polkit dosfstools exfatprogs ntfs-3g e2fsprogs parted"@)
            <==> id == "fedora"@,
        (id == "ubuntu"@ || id == "debian"@ || id == "pop"@ || id == "linuxmint"@)
            ==> install_hint_view(Some(id)).0 == "Debian/Ubuntu"@,
        id == "fedora"@ ==> install_hint_view(Some(id)).0 == "Fedora"@,
        !(id == "fedora"@ || id == "ubuntu"@ || id == "debian"@ || id == "pop"@ || id
            == "linuxmint"@) ==> install_hint_view(Some(id)) == (
            id,
            "Instale UDisks2, Polkit, GTK4, Libadwaita e as ferramentas dosfstools, exfatprogs, ntfs-3g, e2fsprogs e parted."@,
        ),
{
    reveal_strlit("fedora");
    reveal_strlit("ubuntu");
    reveal_strlit("debian");
    reveal_strlit("pop");
    reveal_strlit("linuxmint");
    reveal_strlit(
        "sudo apt install libgtk-4-1 libadwaita-1-0 udisks2 policykit-1 dosfstools exfatprogs ntfs-3g e2fsprogs parted",
    );
    reveal_strlit(
        "sudo dnf install gtk4 libadwaita udisks2 polkit dosfstools exfatprogs ntfs-3g e2fsprogs parted",
    );
    reveal_strlit(
        "Instale UDisks2, Polkit, GTK4, Libadwaita e as ferramentas dosfstools, exfatprogs, ntfs-3g, e2fsprogs e parted.",
    );
    let apt = debian_command();
    let dnf = fedora_command();
    let generic = generic_command();
    assert(apt[5] != dnf[5]);
    assert(apt[0] != generic[0]);
    assert(dnf[0] != generic[0]);
    assert("fedora"@[0] != "ubuntu"@[0]);
    assert("fedora"@[0] != "debian"@[0]);
    assert("fedora"@[0] != "pop"@[0]);
    assert("fedora"@[0] != "linuxmint"@[0]);
}

/// The distribution ID an `os-release` file gives: what follows `ID=` on the
/// first line that begins with it, without surrounding double quotes, in
/// lower case.
pub open spec fn distro_id_view(content: Seq<char>) -> Option<Seq<char>> {
    match first_with_prefix(lines(content), "ID="@) {
        Some(v) => Some(lowercase(trim_by(v, TrimClass::DoubleQuote))),
        None => None,
    }
}

pub fn parse_distro_id_from_os_release(content: &str) -> (r: Option<String>)
    ensures
        opt_view(r) == distro_id_view(content@),
{
    let ls = split_lines(content);
    assert(ls@.map_values(|x: String| x@) =~= lines(content@));
    match find_prefixed_line(&ls, "ID=") {
        Some(v) => {
            let unquoted = trim_str_by(v.as_str(), TrimClass::DoubleQuote);
            Some(to_lowercase(unquoted.as_str()))
        },
        None => None,
    }
}

// ---------------------------------------------------------------------------
// Format tools
// ---------------------------------------------------------------------------

/// A program that formatting needs.
#[derive(Debug, Clone, Copy, PartialEq, Eq, Structural)]
pub enum FormatTool {
    MkfsVfat,
    MkfsExfat,
    MkfsNtfs,
    MkfsExt4,
    Parted,
}

/// The tools, in the order they are reported.
pub open spec fn format_tools() -> Seq<FormatTool> {
    seq![
        FormatTool::MkfsVfat,
        FormatTool::MkfsExfat,
        FormatTool::MkfsNtfs,
        FormatTool::MkfsExt4,
        FormatTool::Parted,
    ]
}

impl FormatTool {
    /// What the tool is named as in messages.
    pub open spec fn label_view(self) -> Seq<char> {
        match self {
            FormatTool::MkfsVfat => "FAT32"@,
            FormatTool::MkfsExfat => "exFAT"@,
            FormatTool::MkfsNtfs => "NTFS"@,
            FormatTool::MkfsExt4 => "ext4"@,
            FormatTool::Parted => "reparticionamento"@,
        }
    }

    /// The command looked for.
    pub open spec fn command_view(self) -> Seq<char> {
        match self {
            FormatTool::MkfsVfat => "mkfs.vfat"@,
            FormatTool::MkfsExfat => "mkfs.exfat"@,
            FormatTool::MkfsNtfs => "mkfs.ntfs"@,
            FormatTool::MkfsExt4 => "mkfs.ext4"@,
            FormatTool::Parted => "parted"@,
        }
    }

    pub fn label(&self) -> (r: &'static str)
        ensures
            r@ == self.label_view(),
    {
        match self {
            FormatTool::MkfsVfat => "FAT32",
            FormatTool::MkfsExfat => "exFAT",
            FormatTool::MkfsNtfs => "NTFS",
            FormatTool::MkfsExt4 => "ext4",
            FormatTool::Parted => "reparticionamento",
        }
    }

    pub fn command(&self) -> (r: &'static str)
        ensures
            r@ == self.command_view(),
    {
        match self {
            FormatTool::MkfsVfat => "mkfs.vfat",
            FormatTool::MkfsExfat => "mkfs.exfat",
            FormatTool::MkfsNtfs => "mkfs.ntfs",
            FormatTool::MkfsExt4 => "mkfs.ext4",
            FormatTool::Parted => "parted",
        }
    }

    /// Every tool, in the order they are reported.
    pub fn all() -> (r: [FormatTool; 5])
        ensures
            r@ == format_tools(),
    {
        let r = [
            FormatTool::MkfsVfat,
            FormatTool::MkfsExfat,
            FormatTool::MkfsNtfs,
            FormatTool::MkfsExt4,
            FormatTool::Parted,
        ];
        assert(r@ =~= format_tools());
        r
    }
}

/// The labels of the tools among `tools` whose command is not present,
/// where `present[i]` tells whether the command of `tools[i]` exists.
pub open spec fn missing_labels(tools: Seq<FormatTool>, present: Seq<bool>) -> Seq<Seq<char>>
    decreases tools.len(),
{
    if tools.len() == 0 || present.len() != tools.len() {
        Seq::empty()
    } else {
        let rest = missing_labels(tools.drop_last(), present.drop_last());
        if present.last() {
            rest
        } else {
            rest.push(tools.last().label_view())
        }
    }
}

/// `command_exists` may answer `answer` for the command of tool `tool`.
pub open spec fn answered<F: Fn(&str) -> bool>(command_exists: F, tool: FormatTool, answer: bool) -> bool {
    exists|c: &str| c@ == tool.command_view() && #[trigger] command_exists.ensures((c,), answer)
}

/// `present` holds, for each tool, an answer `command_exists` gave for its command.
pub open spec fn answers_of<F: Fn(&str) -> bool>(command_exists: F, present: Seq<bool>) -> bool {
    &&& present.len() == format_tools().len()
    &&& forall|i: int|
        0 <= i < present.len() ==> #[trigger] answered(command_exists, format_tools()[i], present[i])
}

/// The labels of the format tools whose command `command_exists` does not
/// find, in the order of the tools.
pub fn missing_format_tool_labels_with<F: Fn(&str) -> bool>(command_exists: F) -> (r: Vec<
    &'static str,
>)
    requires
        forall|c: &str| #[trigger] command_exists.requires((c,)),
    ensures
        exists|present: Seq<bool>|
            answers_of(command_exists, present) && r@.map_values(|s: &str| s@) == missing_labels(
                format_tools(),
                present,
            ),
{
    let tools = FormatTool::all();
    let mut missing: Vec<&'static str> = Vec::new();
    let ghost mut present: Seq<bool> = Seq::empty();
    let mut i: usize = 0;
    while i < 5
        invariant
            tools@ == format_tools(),
            i <= 5,
            forall|c: &str| #[trigger] command_exists.requires((c,)),
            present.len() == i,
            forall|j: int|
                0 <= j < i ==> #[trigger] answered(command_exists, format_tools()[j], present[j]),
            missing@.map_values(|s: &str| s@) == missing_labels(
                format_tools().take(i as int),
                present,
            ),
        decreases 5 - i,
    {
        let tool = tools[i];
        let cmd = tool.command();
        let found = command_exists(cmd);
        let ghost before = missing@;
        if !found {
            missing.push(tool.label());
        }
        proof {
            let old_present = present;
            present = present.push(found);
            assert(present.drop_last() =~= old_present);
            assert(format_tools().take(i + 1).drop_last() =~= format_tools().take(i as int));
            assert(format_tools().take(i + 1).last() == tool);
            assert forall|j: int| 0 <= j < i + 1 implies #[trigger] answered(
                command_exists,
                format_tools()[j],
                present[j],
            ) by {
                if j < i {
                    assert(present[j] == old_present[j]);
                } else {
                    assert(cmd@ == format_tools()[j].command_view());
                    assert(command_exists.ensures((cmd,), present[j]));
                }
            }
            if !found {
                assert(missing@.map_values(|s: &str| s@) =~= before.map_values(|s: &str| s@).push(
                    tool.label_view(),
                ));
            }
        }
        i = i + 1;
    }
    assert(format_tools().take(5) =~= format_tools());
    missing
}

/// The warning about missing tools: their labels, then how to install them.
pub open spec fn tools_warning_view(missing: Seq<Seq<char>>, hint: (Seq<char>, Seq<char>)) -> Seq<
    char,
> {
    "Ferramentas de formatação ausentes ("@ + joined(missing, ", "@)
        + ") — a listagem funciona, mas formatar pode falhar.\n"@ + hint.0 + ":\n"@ + hint.1
}

/// The warning for the answers `present` about the tools' commands: none
/// when no tool is missing, else the labels of the missing ones and `hint`.
pub open spec fn tools_warning_for(present: Seq<bool>, hint: (Seq<char>, Seq<char>)) -> Option<
    Seq<char>,
> {
    let missing = missing_labels(format_tools(), present);
    if missing.len() == 0 {
        None
    } else {
        Some(tools_warning_view(missing, hint))
    }
}

/// The warning about missing format tools, if any is missing; `hint` says
/// how to install them on this system.
pub fn format_tools_warning_message_with<F: Fn(&str) -> bool>(
    command_exists: F,
    hint: &InstallHint,
) -> (r: Option<String>)
    requires
        forall|c: &str| #[trigger] command_exists.requires((c,)),
    ensures
        exists|present: Seq<bool>|
            answers_of(command_exists, present) && opt_view(r) == tools_warning_for(
                present,
                hint@,
            ),
{
    let missing = missing_format_tool_labels_with(command_exists);
    let ghost items = missing@.map_values(|s: &str| s@);
    if missing.len() == 0 {
        return None;
    }
    let mut list = String::new();
    let mut i: usize = 0;
    assert(items.take(0) =~= Seq::<Seq<char>>::empty());
    while i < missing.len()
        invariant
            i <= missing.len(),
            items == missing@.map_values(|s: &str| s@),
            list@ == joined(items.take(i as int), ", "@),
        decreases missing.len() - i,
    {
        if i > 0 {
            list.append(", ");
        }
        list.append(missing[i]);
        assert(items.take(i + 1).drop_last() =~= items.take(i as int));
        if i == 0 {
            assert(list@ =~= joined(items.take(1), ", "@));
        }
        i = i + 1;
    }
    assert(items.take(missing.len() as int) =~= items);
    let mut msg = String::from_str("Ferramentas de formatação ausentes (");
    msg.append(list.as_str());
    msg.append(") — a listagem funciona, mas formatar pode falhar.\n");
    msg.append(hint.label.as_str());
    msg.append(":\n");
    msg.append(hint.command.as_str());
    Some(msg)
}

// ---------------------------------------------------------------------------
// UDisks2 availability and the refresh outcome
// ---------------------------------------------------------------------------

/// The issue when the system D-Bus cannot be reached.
pub open spec fn dbus_issue_view() -> (RuntimeIssueKind, Seq<char>, Seq<char>) {
    (
        RuntimeIssueKind::DbusUnavailable,
        "D-Bus do sistema indisponível"@,
        "O FormatPen precisa do D-Bus do sistema para falar com o UDisks2."@,
    )
}

/// The issue when no process owns the UDisks2 name on the bus.
pub open spec fn udisks_missing_issue_view(hint: (Seq<char>, Seq<char>)) -> (
    RuntimeIssueKind,
    Seq<char>,
    Seq<char>,
) {
    (
        RuntimeIssueKind::UDisksUnavailable,
        "UDisks2 não está disponível"@,
        "Instale e inicie o UDisks2 (e Polkit) para listar e formatar discos.\n\n"@ + hint.0
            + ":\n"@ + hint.1,
    )
}

/// Whether UDisks2 can be used, given whether the system bus answered and
/// whether the UDisks2 name has an owner on it; `hint` says how to install it.
pub fn udisks_availability(dbus_available: bool, udisks_has_owner: bool, hint: &InstallHint) -> (r:
    Result<(), RuntimeIssue>)
    ensures
        match r {
            Ok(()) => dbus_available && udisks_has_owner,
            Err(issue) => if !dbus_available {
                issue@ == dbus_issue_view()
            } else {
                !udisks_has_owner && issue@ == udisks_missing_issue_view(hint@)
            },
        },
{
    if !dbus_available {
        return Err(
            RuntimeIssue {
                kind: RuntimeIssueKind::DbusUnavailable,
                title: String::from_str("D-Bus do sistema indisponível"),
                detail: String::from_str(
                    "O FormatPen precisa do D-Bus do sistema para falar com o UDisks2.",
                ),
            },
        );
    }
    if !udisks_has_owner {
        let mut detail = String::from_str(
            "Instale e inicie o UDisks2 (e Polkit) para listar e formatar discos.\n\n",
        );
        detail.append(hint.label.as_str());
        detail.append(":\n");
        detail.append(hint.command.as_str());
        return Err(
            RuntimeIssue {
                kind: RuntimeIssueKind::UDisksUnavailable,
                title: String::from_str("UDisks2 não está disponível"),
                detail,
            },
        );
    }
    Ok(())
}

/// The issue when listing the drives failed with the error text `error`.
pub open spec fn listing_issue_view(error: Seq<char>, hint: (Seq<char>, Seq<char>)) -> (
    RuntimeIssueKind,
    Seq<char>,
    Seq<char>,
) {
    (
        RuntimeIssueKind::UDisksUnavailable,
        "Não foi possível acessar o UDisks2"@,
        error + "\n\n"@ + hint.0 + ":\n"@ + hint.1,
    )
}

/// The outcome of a refresh: UDisks2 unusable, or listing failed (with the
/// error chain's text), or the drives found and the warning about tools.
pub fn refresh_outcome(
    availability: Result<(), RuntimeIssue>,
    listing: Result<Vec<Drive>, String>,
    hint: &InstallHint,
    format_tools_warning: Option<String>,
) -> (r: DriveRefreshOutcome)
    ensures
        match availability {
            Err(issue) => r@.drives.len() == 0 && r@.runtime_issue == Some(issue@)
                && r@.format_tools_warning is None,
            Ok(()) => match listing {
                Err(e) => r@.drives.len() == 0 && r@.runtime_issue == Some(
                    listing_issue_view(e@, hint@),
                ) && r@.format_tools_warning is None,
                Ok(ds) => r@.drives == views(ds@) && r@.runtime_issue is None
                    && r@.format_tools_warning == opt_view(format_tools_warning),
            },
        },
{
    match availability {
        Err(issue) => DriveRefreshOutcome {
            drives: Vec::new(),
            runtime_issue: Some(issue),
            format_tools_warning: None,
        },
        Ok(()) => match listing {
            Err(e) => {
                let mut detail = e;
                detail.append("\n\n");
                detail.append(hint.label.as_str());
                detail.append(":\n");
                detail.append(hint.command.as_str());
                DriveRefreshOutcome {
                    drives: Vec::new(),
                    runtime_issue: Some(
                        RuntimeIssue {
                            kind: RuntimeIssueKind::UDisksUnavailable,
                            title: String::from_str("Não foi possível acessar o UDisks2"),
                            detail,
                        },
                    ),
                    format_tools_warning: None,
                }
            },
            Ok(drives) => DriveRefreshOutcome {
                drives,
                runtime_issue: None,
                format_tools_warning,
            },
        },
    }
}

// ---------------------------------------------------------------------------
// Laws
// ---------------------------------------------------------------------------

proof fn lemma_missing_labels(tools: Seq<FormatTool>, present: Seq<bool>)
    requires
        present.len() == tools.len(),
    ensures
        ({
            let m = missing_labels(tools, present);
            &&& forall|l: Seq<char>|
                #[trigger] m.contains(l) <==> exists|i: int|
                    0 <= i < tools.len() && !present[i] && #[trigger] tools[i].label_view() == l
            &&& m.len() == 0 <==> forall|i: int| 0 <= i < present.len() ==> #[trigger] present[i]
            &&& m.len() <= tools.len()
            &&& (forall|a: int, b: int|
                0 <= a < b < tools.len() ==> tools[a].label_view() != tools[b].label_view())
                ==> forall|a: int, b: int| 0 <= a < b < m.len() ==> m[a] != m[b]
        }),
    decreases tools.len(),
{
    if tools.len() > 0 {
        let t = tools.drop_last();
        let p = present.drop_last();
        lemma_missing_labels(t, p);
        let rest = missing_labels(t, p);
        let m = missing_labels(tools, present);
        let n = tools.len() - 1;
        assert forall|l: Seq<char>|
            #[trigger] m.contains(l) <==> exists|i: int|
                0 <= i < tools.len() && !present[i] && #[trigger] tools[i].label_view() == l by {
            if m.contains(l) {
                let k = choose|k: int| 0 <= k < m.len() && m[k] == l;
                if k < rest.len() {
                    assert(m[k] == rest[k]);
                    assert(rest.contains(l));
                    let i = choose|i: int|
                        0 <= i < t.len() && !p[i] && #[trigger] t[i].label_view() == l;
                    assert(tools[i] == t[i] && present[i] == p[i]);
                } else {
                    assert(!present[n] && tools[n].label_view() == l);
                }
            }
            if exists|i: int| 0 <= i < tools.len() && !present[i] && #[trigger] tools[i].label_view() == l {
                let i = choose|i: int|
                    0 <= i < tools.len() && !present[i] && #[trigger] tools[i].label_view() == l;
                if i < n {
                    assert(t[i] == tools[i] && p[i] == present[i]);
                    assert(rest.contains(l));
                    let k = choose|k: int| 0 <= k < rest.len() && rest[k] == l;
                    assert(m[k] == l);
                } else {
                    assert(m[m.len() - 1] == l);
                }
            }
        }
        if forall|i: int| 0 <= i < present.len() ==> #[trigger] present[i] {
            assert forall|i: int| 0 <= i < p.len() implies #[trigger] p[i] by {
                assert(p[i] == present[i]);
            }
            assert(present[n]);
        }
        if m.len() == 0 {
            assert(present[n]);
            assert forall|i: int| 0 <= i < present.len() implies #[trigger] present[i] by {
                if i < n {
                    assert(p[i] == present[i]);
                }
            }
        }
        if forall|a: int, b: int|
            0 <= a < b < tools.len() ==> tools[a].label_view() != tools[b].label_view() {
            assert forall|a: int, b: int|
                0 <= a < b < t.len() implies t[a].label_view() != t[b].label_view() by {
                assert(t[a] == tools[a] && t[b] == tools[b]);
            }
            assert forall|a: int, b: int| 0 <= a < b < m.len() implies m[a] != m[b] by {
                if b < rest.len() {
                    assert(m[a] == rest[a] && m[b] == rest[b]);
                } else {
                    assert(m[a] == rest[a]);
                    assert(rest.contains(rest[a]));
                    let i = choose|i: int|
                        0 <= i < t.len() && !p[i] && #[trigger] t[i].label_view() == rest[a];
                    assert(tools[i] == t[i]);
                    assert(m[b] == tools[n].label_view());
                }
            }
        }
    }
}

/// For any answers about the five tools' commands, the missing labels are the
/// labels of the tools answered "absent", each once, in the order of the tools;
/// the list is empty exactly when every tool is present.
pub proof fn law_missing_labels_in_tool_order(present: Seq<bool>)
    requires
        present.len() == format_tools().len(),
    ensures
        ({
            let m = missing_labels(format_tools(), present);
            &&& forall|l: Seq<char>|
                #[trigger] m.contains(l) <==> exists|i: int|
                    0 <= i < format_tools().len() && !present[i] && #[trigger] format_tools()[i].label_view()
                        == l
            &&& forall|a: int, b: int| 0 <= a < b < m.len() ==> m[a] != m[b]
            &&& m.len() == 0 <==> forall|i: int| 0 <= i < present.len() ==> #[trigger] present[i]
        }),
        missing_labels(format_tools(), seq![false, false, false, false, false]) == seq![
            "FAT32"@,
            "exFAT"@,
            "NTFS"@,
            "ext4"@,
            "reparticionamento"@,
        ],
{
    let tools = format_tools();
    reveal_strlit("FAT32");
    reveal_strlit("exFAT");
    reveal_strlit("NTFS");
    reveal_strlit("ext4");
    reveal_strlit("reparticionamento");
    assert forall|a: int, b: int|
        0 <= a < b < tools.len() implies tools[a].label_view() != tools[b].label_view() by {
        let la = tools[a].label_view();
        let lb = tools[b].label_view();
        if la.len() == lb.len() {
            assert(la[0] != lb[0]);
        }
    }
    lemma_missing_labels(tools, present);
    let all_absent = seq![false, false, false, false, false];
    reveal_with_fuel(missing_labels, 6);
    assert(tools.drop_last().drop_last().drop_last().drop_last().drop_last() =~= Seq::<
        FormatTool,
    >::empty());
    assert(missing_labels(tools, all_absent) =~= seq![
        "FAT32"@,
        "exFAT"@,
        "NTFS"@,
        "ext4"@,
        "reparticionamento"@,
    ]);
}

/// For any answers about the five tools' commands, the warning is absent
/// exactly when every tool is present; otherwise it names the missing tools,
/// in the order of the tools, and gives `hint`.
pub proof fn law_tools_warning(present: Seq<bool>, hint: (Seq<char>, Seq<char>))
    requires
        present.len() == format_tools().len(),
    ensures
        tools_warning_for(present, hint) is None <==> forall|i: int|
            0 <= i < present.len() ==> #[trigger] present[i],
        tools_warning_for(present, hint) matches Some(w) ==> w == tools_warning_view(
            missing_labels(format_tools(), present),
            hint,
        ),
{
    lemma_missing_labels(format_tools(), present);
}

} // verus!
