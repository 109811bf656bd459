//! What the main window shows after a refresh of the drive list.
use vstd::prelude::*;

use crate::environment::{DriveRefreshOutcome, InstallHint};
use crate::text::opt_view;

verus! {

/// The state of the window's banner, status line, list and form after a refresh.
#[derive(Debug, Clone)]
pub struct RefreshView {
    pub banner_revealed: bool,
    /// The banner's new title; `None` leaves the title as it was.
    pub banner_title: Option<String>,
    /// Whether the banner has the warning style.
    pub banner_warning: bool,
    /// The status line under the list; `None` hides it.
    pub status_message: Option<String>,
    /// Whether the list shows the outcome's drives (else it is emptied).
    pub show_drives: bool,
    /// Whether the format form can be used (a drive is selected).
    pub form_sensitive: bool,
}

pub open spec fn tools_banner_title() -> Seq<char> {
    "Ferramentas de formatação incompletas no sistema"@
}

pub open spec fn no_drives_message() -> Seq<char> {
    "Nenhum dispositivo removível encontrado. Conecte um pendrive e clique em Atualizar."@
}

/// The window after a refresh. A runtime issue fills the banner and the
/// status line and empties the list; otherwise the list shows the drives, the
/// first is selected, the tools warning (if any) fills the warning banner and
/// the status line, and with no warning the status line says when no drive
/// was found.
pub fn refresh_view_for(outcome: &DriveRefreshOutcome) -> (r: RefreshView)
    ensures
        match outcome.runtime_issue {
            Some(issue) => {
                &&& r.banner_revealed
                &&& opt_view(r.banner_title) == Some(issue.title@)
                &&& !r.banner_warning
                &&& opt_view(r.status_message) == Some(issue.detail@)
                &&& !r.show_drives
                &&& !r.form_sensitive
            },
            None => {
                &&& r.show_drives
                &&& r.form_sensitive == (outcome.drives@.len() > 0)
                &&& match outcome.format_tools_warning {
                    Some(w) => {
                        &&& r.banner_revealed
                        &&& opt_view(r.banner_title) == Some(tools_banner_title())
                        &&& r.banner_warning
                        &&& opt_view(r.status_message) == Some(w@)
                    },
                    None => {
                        &&& !r.banner_revealed
                        &&& r.banner_title is None
                        &&& !r.banner_warning
                        &&& opt_view(r.status_message) == (if outcome.drives@.len() == 0 {
                            Some(no_drives_message())
                        } else {
                            None::<Seq<char>>
                        })
                    },
                }
            },
        },
{
    if let Some(issue) = &outcome.runtime_issue {
        return RefreshView {
            banner_revealed: true,
            banner_title: Some(issue.title.clone()),
            banner_warning: false,
            status_message: Some(issue.detail.clone()),
            show_drives: false,
            form_sensitive: false,
        };
    }
    let has_drives = outcome.drives.len() > 0;
    match &outcome.format_tools_warning {
        Some(w) => RefreshView {
            banner_revealed: true,
            banner_title: Some(
                String::from_str("Ferramentas de formatação incompletas no sistema"),
            ),
            banner_warning: true,
            status_message: Some(w.clone()),
            show_drives: true,
            form_sensitive: has_drives,
        },
        None => RefreshView {
            banner_revealed: false,
            banner_title: None,
            banner_warning: false,
            status_message: if has_drives {
                None
            } else {
                Some(
                    String::from_str(
                        "Nenhum dispositivo removível encontrado. Conecte um pendrive e clique em Atualizar.",
                    ),
                )
            },
            show_drives: true,
            form_sensitive: has_drives,
        },
    }
}

/// The question asked before a format, naming the drive and its device.
pub open spec fn confirm_format_view(display_name: Seq<char>, device_path: Seq<char>) -> Seq<char> {
    "Todos os dados em "@ + display_name + " ("@ + device_path
        + ") serão apagados permanentemente. O dispositivo será reparticionado com uma única partição. Deseja continuar?"@
}

/// The text of the confirmation dialog for a format of the drive called
/// `display_name`, at `device_path`.
pub fn confirm_format_message(display_name: &str, device_path: &str) -> (r: String)
    ensures
        r@ == confirm_format_view(display_name@, device_path@),
{
    let mut m = String::from_str("Todos os dados em ");
    m.append(display_name);
    m.append(" (");
    m.append(device_path);
    m.append(
        ") serão apagados permanentemente. O dispositivo será reparticionado com uma única partição. Deseja continuar?",
    );
    m
}

/// The message shown when a format fails: the error with its causes, what to
/// try, and how to install the tools (`hint` is the label and the command).
pub open spec fn format_failure_view(error_chain: Seq<char>, hint: (Seq<char>, Seq<char>)) -> Seq<
    char,
> {
    "Falha na formatação: "@ + error_chain
        + "\n\nFeche apps que usem o pendrive e tente de novo. Se faltar ferramentas no sistema:\n"@
        + hint.0 + ":\n"@ + hint.1
}

/// The message of a failed format; `error_chain` is the error followed by its
/// causes, and `hint` says how to install the format tools.
pub fn format_failure_message(error_chain: &str, hint: &InstallHint) -> (r: String)
    ensures
        r@ == format_failure_view(error_chain@, hint@),
{
    let mut m = String::from_str("Falha na formatação: ");
    m.append(error_chain);
    m.append(
        "\n\nFeche apps que usem o pendrive e tente de novo. Se faltar ferramentas no sistema:\n",
    );
    m.append(hint.label.as_str());
    m.append(":\n");
    m.append(hint.command.as_str());
    m
}

} // verus!
