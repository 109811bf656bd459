//! Self-update of the AppImage: the user's stored choice and when updates
//! are switched off.
use vstd::prelude::*;

use crate::text::{
    first_with_prefix, find_prefixed_line, has_prefix, lemma_single_line, lines, split_lines,
    str_equal, trim_str, trimmed,
};

verus! {

/// Whether the user wants updates to be applied automatically.
#[derive(Debug, Clone, Copy, PartialEq, Eq, Structural)]
pub enum AutoUpdatePref {
    NotAsked,
    Enabled,
    Disabled,
}

/// What an update attempt came to.
#[derive(Debug, Clone, PartialEq, Eq)]
pub enum UpdateOutcome {
    NotApplicable,
    UpToDate,
    Updated { path: String },
    Failed(String),
}

/// The key of the preference in the configuration file.
pub open spec fn pref_key() -> Seq<char> {
    "auto_update="@
}

/// The preference a stored value (trimmed) stands for.
pub open spec fn pref_for_value(v: Seq<char>) -> AutoUpdatePref {
    let t = trimmed(v);
    if t == "true"@ || t == "1"@ || t == "yes"@ {
        AutoUpdatePref::Enabled
    } else if t == "false"@ || t == "0"@ || t == "no"@ {
        AutoUpdatePref::Disabled
    } else {
        AutoUpdatePref::NotAsked
    }
}

/// The preference a configuration file states: the value on the first
/// (trimmed) line that begins with `auto_update=`; not asked when there is none.
pub open spec fn stored_pref(content: Seq<char>) -> AutoUpdatePref {
    match first_with_prefix(lines(content).map_values(|l: Seq<char>| trimmed(l)), pref_key()) {
        Some(v) => pref_for_value(v),
        None => AutoUpdatePref::NotAsked,
    }
}

/// The configuration file that stores `enabled`.
pub open spec fn pref_file_view(enabled: bool) -> Seq<char> {
    pref_key() + (if enabled {
        "true"@
    } else {
        "false"@
    }) + "\n"@
}

/// The preference that the configuration file `content` states.
pub fn parse_auto_update_pref(content: &str) -> (r: AutoUpdatePref)
    ensures
        r == stored_pref(content@),
{
    let raw = split_lines(content);
    let mut trimmed_lines: Vec<String> = Vec::new();
    let mut i: usize = 0;
    while i < raw.len()
        invariant
            i <= raw.len(),
            raw@.len() == lines(content@).len(),
            forall|j: int| 0 <= j < raw@.len() ==> #[trigger] raw@[j]@ == lines(content@)[j],
            trimmed_lines@.len() == i,
            forall|j: int|
                0 <= j < i ==> #[trigger] trimmed_lines@[j]@ == trimmed(lines(content@)[j]),
        decreases raw.len() - i,
    {
        trimmed_lines.push(trim_str(raw[i].as_str()));
        i = i + 1;
    }
    assert(trimmed_lines@.map_values(|x: String| x@) =~= lines(content@).map_values(
        |l: Seq<char>| trimmed(l),
    ));
    match find_prefixed_line(&trimmed_lines, "auto_update=") {
        Some(v) => {
            let t = trim_str(v.as_str());
            if str_equal(t.as_str(), "true") || str_equal(t.as_str(), "1") || str_equal(
                t.as_str(),
                "yes",
            ) {
                AutoUpdatePref::Enabled
            } else if str_equal(t.as_str(), "false") || str_equal(t.as_str(), "0") || str_equal(
                t.as_str(),
                "no",
            ) {
                AutoUpdatePref::Disabled
            } else {
                AutoUpdatePref::NotAsked
            }
        },
        None => AutoUpdatePref::NotAsked,
    }
}

/// The configuration file that stores `enabled` (one `auto_update=` line).
pub fn auto_update_pref_content(enabled: bool) -> (r: String)
    ensures
        r@ == pref_file_view(enabled),
{
    let mut r = String::from_str("auto_update=");
    if enabled {
        r.append("true");
    } else {
        r.append("false");
    }
    r.append("\n");
    r
}

/// An environment switch that is on: set to `1`, `true` or `yes`.
pub open spec fn switch_on(value: Option<Seq<char>>) -> bool {
    match value {
        Some(v) => v == "1"@ || v == "true"@ || v == "yes"@,
        None => false,
    }
}

fn switch_is_on(value: Option<&str>) -> (r: bool)
    ensures
        r == switch_on(
            match value {
                Some(v) => Some(v@),
                None => None,
            },
        ),
{
    match value {
        Some(v) => str_equal(v, "1") || str_equal(v, "true") || str_equal(v, "yes"),
        None => false,
    }
}

/// Whether updates are switched off, from the values of `FORMATPEN_NO_UPDATE`
/// and `APPIMAGE_UPDATE_DISABLE` (none when unset).
pub fn updates_disabled_by(no_update: Option<&str>, update_disable: Option<&str>) -> (r: bool)
    ensures
        r == (switch_on(
            match no_update {
                Some(v) => Some(v@),
                None => None,
            },
        ) || switch_on(
            match update_disable {
                Some(v) => Some(v@),
                None => None,
            },
        )),
{
    switch_is_on(no_update) || switch_is_on(update_disable)
}

/// A stored preference is read back as it was stored.
pub proof fn law_pref_round_trip(enabled: bool)
    ensures
        stored_pref(pref_file_view(enabled)) == (if enabled {
            AutoUpdatePref::Enabled
        } else {
            AutoUpdatePref::Disabled
        }),
{
    reveal_strlit("auto_update=");
    reveal_strlit("true");
    reveal_strlit("false");
    reveal_strlit("\n");
    reveal_strlit("1");
    reveal_strlit("yes");
    reveal_strlit("0");
    reveal_strlit("no");
    let value = if enabled {
        "true"@
    } else {
        "false"@
    };
    let line = pref_key() + value;
    assert(pref_file_view(enabled) =~= line.push('\n'));
    assert(!line.contains('\n')) by {
        if line.contains('\n') {
            let j = choose|j: int| 0 <= j < line.len() && line[j] == '\n';
            assert(line[j] != '\n');
        }
    }
    lemma_single_line(line);
    assert(trimmed(line) == line);
    assert(lines(pref_file_view(enabled)).map_values(|l: Seq<char>| trimmed(l)) =~= seq![line]);
    assert(has_prefix(line, pref_key())) by {
        assert(line.take(pref_key().len() as int) =~= pref_key());
    }
    assert(line.skip(pref_key().len() as int) =~= value);
    assert(trimmed(value) == value);
    assert(first_with_prefix(seq![line], pref_key()) == Some(value));
    if !enabled {
        assert(value.len() == 5);
        assert(value != "true"@);
    } else {
        assert(value =~= "true"@);
    }
}

} // verus!
