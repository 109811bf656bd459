//! Turning the text of a failed format into a message for the user.
use vstd::prelude::*;

use crate::text::{chars_contain, chars_of, has_infix, lowercase, to_lowercase};

verus! {

/// What the user is told about a failed format.
#[derive(Debug, Clone, PartialEq, Eq)]
pub struct FormatUserMessage {
    pub message: String,
    /// Whether to show how to install the missing system packages.
    pub show_install_hint: bool,
}

/// The kinds of format failure that the user is told apart.
#[derive(Debug, Clone, Copy, PartialEq, Eq, Structural)]
pub enum FormatErrorKind {
    ExfatLabelTooLong,
    FatLabelTooLong,
    NotAuthorized,
    DeviceBusy,
    ToolMissing,
    Unknown,
}

/// The kind of a failure, from the lower-case text of its error chain; the
/// first rule that matches decides.
pub open spec fn format_error_kind(lower: Seq<char>) -> FormatErrorKind {
    if has_infix(lower, "label for exfat filesystem is too long"@) {
        FormatErrorKind::ExfatLabelTooLong
    } else if (has_infix(lower, "label for vfat"@) && has_infix(lower, "too long"@)) || (
    has_infix(lower, "label for fat"@) && has_infix(lower, "too long"@)) {
        FormatErrorKind::FatLabelTooLong
    } else if has_infix(lower, "not authorized"@) || has_infix(lower, "notauthorized"@) {
        FormatErrorKind::NotAuthorized
    } else if has_infix(lower, "busy"@) || has_infix(lower, "mounted"@) || has_infix(
        lower,
        "in use"@,
    ) || has_infix(lower, "is busy"@) {
        FormatErrorKind::DeviceBusy
    } else if has_infix(lower, "no such file"@) || has_infix(lower, "command not found"@)
        || has_infix(lower, "failed to execute"@) || has_infix(lower, "mkfs."@) || has_infix(
        lower,
        "mkfs "@,
    ) {
        FormatErrorKind::ToolMissing
    } else {
        FormatErrorKind::Unknown
    }
}

/// The message shown for each kind of failure.
pub open spec fn format_error_message(kind: FormatErrorKind) -> Seq<char> {
    match kind {
        FormatErrorKind::ExfatLabelTooLong =>
            "Nome longo demais para exFAT. Use no máximo 11 caracteres ou deixe vazio."@,
        FormatErrorKind::FatLabelTooLong =>
            "Nome longo demais para FAT32. Use no máximo 11 caracteres ou deixe vazio."@,
        FormatErrorKind::NotAuthorized =>
            "Permissão negada. Confirme a senha de administrador quando o sistema pedir."@,
        FormatErrorKind::DeviceBusy =>
            "Pendrive em uso. Feche gerenciadores de arquivos, o Gerenciador de Partições ou outros programas que estejam acessando o dispositivo e tente de novo."@,
        FormatErrorKind::ToolMissing => "Ferramenta de formatação ausente no sistema."@,
        FormatErrorKind::Unknown =>
            "Não foi possível formatar o dispositivo. Tente de novo ou escolha outro tipo de sistema de arquivos."@,
    }
}

/// The message for a failure whose lower-case error text is `lower`; the
/// install hint goes with a missing tool only.
pub open spec fn user_message_view(lower: Seq<char>) -> (Seq<char>, bool) {
    let kind = format_error_kind(lower);
    (format_error_message(kind), kind == FormatErrorKind::ToolMissing)
}

fn has(hay: &Vec<char>, pattern: &str) -> (r: bool)
    ensures
        r == has_infix(hay@, pattern@),
{
    let p = chars_of(pattern);
    chars_contain(hay, &p)
}

impl FormatErrorKind {
    /// The message shown for this kind of failure.
    pub fn message(&self) -> (r: &'static str)
        ensures
            r@ == format_error_message(*self),
    {
        match self {
            FormatErrorKind::ExfatLabelTooLong =>
                "Nome longo demais para exFAT. Use no máximo 11 caracteres ou deixe vazio.",
            FormatErrorKind::FatLabelTooLong =>
                "Nome longo demais para FAT32. Use no máximo 11 caracteres ou deixe vazio.",
            FormatErrorKind::NotAuthorized =>
                "Permissão negada. Confirme a senha de administrador quando o sistema pedir.",
            FormatErrorKind::DeviceBusy =>
                "Pendrive em uso. Feche gerenciadores de arquivos, o Gerenciador de Partições ou outros programas que estejam acessando o dispositivo e tente de novo.",
            FormatErrorKind::ToolMissing => "Ferramenta de formatação ausente no sistema.",
            FormatErrorKind::Unknown =>
                "Não foi possível formatar o dispositivo. Tente de novo ou escolha outro tipo de sistema de arquivos.",
        }
    }
}

/// The kind of failure whose error chain, already in lower case, is `lower`.
pub fn classify_format_error(lower: &str) -> (r: FormatErrorKind)
    ensures
        r == format_error_kind(lower@),
{
    let t = chars_of(lower);
    if has(&t, "label for exfat filesystem is too long") {
        FormatErrorKind::ExfatLabelTooLong
    } else if (has(&t, "label for vfat") && has(&t, "too long")) || (has(&t, "label for fat")
        && has(&t, "too long")) {
        FormatErrorKind::FatLabelTooLong
    } else if has(&t, "not authorized") || has(&t, "notauthorized") {
        FormatErrorKind::NotAuthorized
    } else if has(&t, "busy") || has(&t, "mounted") || has(&t, "in use") || has(&t, "is busy") {
        FormatErrorKind::DeviceBusy
    } else if has(&t, "no such file") || has(&t, "command not found") || has(
        &t,
        "failed to execute",
    ) || has(&t, "mkfs.") || has(&t, "mkfs ") {
        FormatErrorKind::ToolMissing
    } else {
        FormatErrorKind::Unknown
    }
}

/// The message for a failure whose error chain, already in lower case, is `lower`.
pub fn user_message_for_lowercase_error(lower: &str) -> (r: FormatUserMessage)
    ensures
        (r.message@, r.show_install_hint) == user_message_view(lower@),
{
    let kind = classify_format_error(lower);
    FormatUserMessage {
        message: String::from_str(kind.message()),
        show_install_hint: kind == FormatErrorKind::ToolMissing,
    }
}

/// The message for a failed format, from the text of its error chain (the
/// messages from the outermost context inwards, joined by ": "), which is
/// compared in lower case.
pub fn user_message_for_format_error(error_chain: &str) -> (r: FormatUserMessage)
    ensures
        (r.message@, r.show_install_hint) == user_message_view(lowercase(error_chain@)),
{
    let lower = to_lowercase(error_chain);
    user_message_for_lowercase_error(lower.as_str())
}

/// Which kind a failure is, for any lower-case error text, rule by rule: the
/// first rule any of whose patterns occurs in the text decides, in this order:
/// exFAT label too long; FAT label too long ("label for vfat" or "label for
/// fat", with "too long"); not authorized; device busy ("busy", "mounted",
/// "in use", "is busy"); missing tool ("no such file", "command not found",
/// "failed to execute", "mkfs.", "mkfs "); otherwise unknown. Only a missing
/// tool comes with the install hint, and each kind has its own message.
pub proof fn law_error_kind_by_first_matching_rule(lower: Seq<char>)
    ensures
        ({
            let exfat = has_infix(lower, "label for exfat filesystem is too long"@);
            let fat = (has_infix(lower, "label for vfat"@) || has_infix(lower, "label for fat"@))
                && has_infix(lower, "too long"@);
            let auth = has_infix(lower, "not authorized"@) || has_infix(lower, "notauthorized"@);
            let busy = has_infix(lower, "busy"@) || has_infix(lower, "mounted"@) || has_infix(
                lower,
                "in use"@,
            ) || has_infix(lower, "is busy"@);
            let tool = has_infix(lower, "no such file"@) || has_infix(lower, "command not found"@)
                || has_infix(lower, "failed to execute"@) || has_infix(lower, "mkfs."@)
                || has_infix(lower, "mkfs "@);
            let kind = format_error_kind(lower);
            &&& exfat ==> kind == FormatErrorKind::ExfatLabelTooLong
            &&& !exfat && fat ==> kind == FormatErrorKind::FatLabelTooLong
            &&& !exfat && !fat && auth ==> kind == FormatErrorKind::NotAuthorized
            &&& !exfat && !fat && !auth && busy ==> kind == FormatErrorKind::DeviceBusy
            &&& !exfat && !fat && !auth && !busy && tool ==> kind == FormatErrorKind::ToolMissing
            &&& !exfat && !fat && !auth && !busy && !tool ==> kind == FormatErrorKind::Unknown
            &&& user_message_view(lower).1 == (kind == FormatErrorKind::ToolMissing)
            &&& kind == FormatErrorKind::DeviceBusy ==> user_message_view(lower).0
                == "Pendrive em uso. Feche gerenciadores de arquivos, o Gerenciador de Partições ou outros programas que estejam acessando o dispositivo e tente de novo."@
            &&& kind == FormatErrorKind::NotAuthorized ==> user_message_view(lower).0
                == "Permissão negada. Confirme a senha de administrador quando o sistema pedir."@
            &&& kind == FormatErrorKind::ExfatLabelTooLong ==> user_message_view(lower).0
                == "Nome longo demais para exFAT. Use no máximo 11 caracteres ou deixe vazio."@
            &&& kind == FormatErrorKind::FatLabelTooLong ==> user_message_view(lower).0
                == "Nome longo demais para FAT32. Use no máximo 11 caracteres ou deixe vazio."@
            &&& kind == FormatErrorKind::ToolMissing ==> user_message_view(lower).0
                == "Ferramenta de formatação ausente no sistema."@
            &&& kind == FormatErrorKind::Unknown ==> user_message_view(lower).0
                == "Não foi possível formatar o dispositivo. Tente de novo ou escolha outro tipo de sistema de arquivos."@
        }),
{
}

} // verus!
