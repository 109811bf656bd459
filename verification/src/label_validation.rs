//! Checking the volume label that the user types for a filesystem.
use vstd::prelude::*;

use crate::services::format::{format_label_view, partition_name_view};
use crate::services::FilesystemType;
use crate::text::{
    chars_of, decimal, decimal_string, joined, lemma_trim_by_idempotent, substring, trim_str,
    trimmed, TrimClass,
};

verus! {

/// A character that no volume label may hold.
pub open spec fn is_forbidden(c: char) -> bool {
    c == '\\' || c == '/' || c == ':' || c == '*' || c == '?' || c == '"' || c == '<' || c == '>'
        || c == '|'
}

/// The forbidden characters in ascending order of code point.
pub open spec fn forbidden_sorted() -> Seq<char> {
    seq!['"', '*', '/', ':', '<', '>', '?', '\\', '|']
}

/// The items of `cands` that occur in `t`, in the order of `cands`.
pub open spec fn present_of(cands: Seq<char>, t: Seq<char>) -> Seq<char>
    decreases cands.len(),
{
    if cands.len() == 0 {
        Seq::empty()
    } else {
        let r = present_of(cands.drop_last(), t);
        if t.contains(cands.last()) {
            r.push(cands.last())
        } else {
            r
        }
    }
}

/// The forbidden characters that occur in `t`, each once, in ascending order.
pub open spec fn forbidden_in(t: Seq<char>) -> Seq<char> {
    present_of(forbidden_sorted(), t)
}

/// How a forbidden character is named in the message.
pub open spec fn describe_forbidden(c: char) -> Seq<char> {
    if c == '\\' {
        "\\ (barra invertida)"@
    } else if c == '"' {
        "\" (aspas)"@
    } else {
        seq!['\'', c, '\'']
    }
}

/// The message for a label holding the forbidden characters `found`.
pub open spec fn forbidden_message(found: Seq<char>) -> Seq<char> {
    "O nome do volume não pode conter o(s) caractere(s): "@ + joined(
        found.map_values(|c: char| describe_forbidden(c)),
        ", "@,
    )
}

/// The message for a label longer than `fs_type` allows.
pub open spec fn too_long_message(fs_type: FilesystemType) -> Seq<char> {
    "O nome do volume não pode ter mais de "@ + decimal(fs_type.label_limit() as nat)
        + " caracteres para "@ + fs_type.display_name_view() + "."@
}

/// The hint shown under the label field.
pub open spec fn label_hint_view(fs_type: FilesystemType) -> Seq<char> {
    "Máximo "@ + decimal(fs_type.label_limit() as nat) + " caracteres ("@
        + fs_type.display_name_view() + ")"@
}

/// What checking `text` as a label for `fs_type` gives: no label when it is
/// blank, the trimmed label when it is acceptable, or the message that says
/// why not (forbidden characters take precedence over the length).
pub open spec fn validated_label(text: Seq<char>, fs_type: FilesystemType) -> Result<
    Option<Seq<char>>,
    Seq<char>,
> {
    let t = trimmed(text);
    if t.len() == 0 {
        Ok(None)
    } else if forbidden_in(t).len() > 0 {
        Err(forbidden_message(forbidden_in(t)))
    } else if t.len() > fs_type.label_limit() {
        Err(too_long_message(fs_type))
    } else {
        Ok(Some(t))
    }
}

/// The view of a label check's result.
pub open spec fn label_result_view(r: Result<Option<String>, String>) -> Result<
    Option<Seq<char>>,
    Seq<char>,
> {
    match r {
        Ok(Some(s)) => Ok(Some(s@)),
        Ok(None) => Ok(None),
        Err(e) => Err(e@),
    }
}

/// `text` cut to the first `limit` characters of `fs_type`.
pub open spec fn truncated(text: Seq<char>, fs_type: FilesystemType) -> Seq<char> {
    if text.len() <= fs_type.label_limit() {
        text
    } else {
        text.take(fs_type.label_limit() as int)
    }
}

fn vec_has(v: &Vec<char>, c: char) -> (r: bool)
    ensures
        r == v@.contains(c),
{
    let mut i: usize = 0;
    while i < v.len()
        invariant
            i <= v.len(),
            forall|j: int| 0 <= j < i ==> v@[j] != c,
        decreases v.len() - i,
    {
        if v[i] == c {
            return true;
        }
        i = i + 1;
    }
    false
}

fn forbidden_sorted_vec() -> (r: Vec<char>)
    ensures
        r@ == forbidden_sorted(),
{
    let r = vec!['"', '*', '/', ':', '<', '>', '?', '\\', '|'];
    assert(r@ =~= forbidden_sorted());
    r
}

/// The forbidden characters in `text`, each once, in ascending order.
fn find_forbidden_chars(text: &Vec<char>) -> (r: Vec<char>)
    ensures
        r@ == forbidden_in(text@),
{
    let cands = forbidden_sorted_vec();
    let mut found: Vec<char> = Vec::new();
    let mut i: usize = 0;
    while i < cands.len()
        invariant
            cands@ == forbidden_sorted(),
            i <= cands.len(),
            found@ == present_of(cands@.take(i as int), text@),
        decreases cands.len() - i,
    {
        let c = cands[i];
        if vec_has(text, c) {
            found.push(c);
        }
        assert(cands@.take(i + 1).drop_last() =~= cands@.take(i as int));
        i = i + 1;
    }
    assert(cands@.take(cands.len() as int) =~= cands@);
    found
}

/// The name of forbidden character `c` in the message.
fn describe_forbidden_char(c: char) -> (r: &'static str)
    requires
        is_forbidden(c),
    ensures
        r@ == describe_forbidden(c),
{
    proof {
        reveal_strlit("'/'");
        reveal_strlit("':'");
        reveal_strlit("'*'");
        reveal_strlit("'?'");
        reveal_strlit("'<'");
        reveal_strlit("'>'");
        reveal_strlit("'|'");
    }
    let r = if c == '\\' {
        "\\ (barra invertida)"
    } else if c == '"' {
        "\" (aspas)"
    } else if c == '/' {
        "'/'"
    } else if c == ':' {
        "':'"
    } else if c == '*' {
        "'*'"
    } else if c == '?' {
        "'?'"
    } else if c == '<' {
        "'<'"
    } else if c == '>' {
        "'>'"
    } else {
        "'|'"
    };
    assert(r@ =~= describe_forbidden(c));
    r
}

/// The message naming the forbidden characters `forbidden`.
fn format_forbidden_chars_message(forbidden: &Vec<char>) -> (r: String)
    requires
        forall|i: int| 0 <= i < forbidden@.len() ==> is_forbidden(#[trigger] forbidden@[i]),
    ensures
        r@ == forbidden_message(forbidden@),
{
    let ghost items = forbidden@.map_values(|c: char| describe_forbidden(c));
    let mut list = String::new();
    let mut i: usize = 0;
    assert(items.take(0) =~= Seq::<Seq<char>>::empty());
    while i < forbidden.len()
        invariant
            i <= forbidden.len(),
            items == forbidden@.map_values(|c: char| describe_forbidden(c)),
            forall|j: int| 0 <= j < forbidden@.len() ==> is_forbidden(#[trigger] forbidden@[j]),
            list@ == joined(items.take(i as int), ", "@),
        decreases forbidden.len() - i,
    {
        let d = describe_forbidden_char(forbidden[i]);
        if i > 0 {
            list.append(", ");
        }
        list.append(d);
        assert(items.take(i + 1).drop_last() =~= items.take(i as int));
        assert(items.take(i + 1).last() == items[i as int]);
        if i == 0 {
            assert(list@ =~= joined(items.take(1), ", "@));
        }
        i = i + 1;
    }
    assert(items.take(forbidden.len() as int) =~= items);
    let mut msg = String::from_str("O nome do volume não pode conter o(s) caractere(s): ");
    msg.append(list.as_str());
    msg
}

proof fn lemma_present_of_forbidden(cands: Seq<char>, t: Seq<char>)
    requires
        forall|i: int| 0 <= i < cands.len() ==> is_forbidden(#[trigger] cands[i]),
    ensures
        forall|i: int|
            0 <= i < present_of(cands, t).len() ==> is_forbidden(
                #[trigger] present_of(cands, t)[i],
            ),
    decreases cands.len(),
{
    if cands.len() > 0 {
        let d = cands.drop_last();
        assert forall|i: int| 0 <= i < d.len() implies is_forbidden(#[trigger] d[i]) by {
            assert(d[i] == cands[i]);
        }
        lemma_present_of_forbidden(d, t);
        assert(is_forbidden(cands[cands.len() - 1]));
        let r = present_of(d, t);
        let p = present_of(cands, t);
        assert forall|i: int| 0 <= i < p.len() implies is_forbidden(#[trigger] p[i]) by {
            if i < r.len() {
                assert(p[i] == r[i]);
            }
        }
    }
}

/// The message for a label that is too long.
fn too_long_text(fs_type: FilesystemType) -> (r: String)
    ensures
        r@ == too_long_message(fs_type),
{
    let mut msg = String::from_str("O nome do volume não pode ter mais de ");
    let n = decimal_string(fs_type.max_label_length());
    msg.append(n.as_str());
    msg.append(" caracteres para ");
    msg.append(fs_type.display_name());
    msg.append(".");
    msg
}

/// Checks the label `text` for `fs_type`: surrounding white space is dropped,
/// a blank label means no label, and the label may hold no forbidden
/// character nor more characters than the filesystem allows.
pub fn validate_volume_label(text: &str, fs_type: FilesystemType) -> (r: Result<
    Option<String>,
    String,
>)
    ensures
        label_result_view(r) == validated_label(text@, fs_type),
{
    let t = trim_str(text);
    let chars = chars_of(t.as_str());
    if chars.len() == 0 {
        return Ok(None);
    }
    let forbidden = find_forbidden_chars(&chars);
    if forbidden.len() > 0 {
        proof {
            let c = forbidden_sorted();
            assert forall|i: int| 0 <= i < c.len() implies is_forbidden(#[trigger] c[i]) by {}
            lemma_present_of_forbidden(c, chars@);
        }
        return Err(format_forbidden_chars_message(&forbidden));
    }
    let max_len = fs_type.max_label_length() as usize;
    if chars.len() > max_len {
        return Err(too_long_text(fs_type));
    }
    Ok(Some(t))
}

/// `text` cut to at most the number of characters `fs_type` allows in a label.
pub fn truncate_to_max(text: &str, fs_type: FilesystemType) -> (r: String)
    ensures
        r@ == truncated(text@, fs_type),
{
    let max_len = fs_type.max_label_length() as usize;
    let n = text.unicode_len();
    if n <= max_len {
        let r = substring(text, 0, n);
        assert(text@.subrange(0, n as int) =~= text@);
        r
    } else {
        substring(text, 0, max_len)
    }
}

/// The hint shown under the label field: the limit and the filesystem's name.
pub fn label_hint_for(fs_type: FilesystemType) -> (r: String)
    ensures
        r@ == label_hint_view(fs_type),
{
    let mut msg = String::from_str("Máximo ");
    let n = decimal_string(fs_type.max_label_length());
    msg.append(n.as_str());
    msg.append(" caracteres (");
    msg.append(fs_type.display_name());
    msg.append(")");
    msg
}

// ---------------------------------------------------------------------------
// Laws
// ---------------------------------------------------------------------------

proof fn lemma_present_of_members(cands: Seq<char>, t: Seq<char>)
    requires
        forall|i: int, j: int| 0 <= i < j < cands.len() ==> (cands[i] as u32) < (cands[j] as u32),
    ensures
        forall|i: int, j: int|
            0 <= i < j < present_of(cands, t).len() ==> (present_of(cands, t)[i] as u32) < (
            present_of(cands, t)[j] as u32),
        forall|c: char| #[trigger]
            present_of(cands, t).contains(c) <==> (cands.contains(c) && t.contains(c)),
        forall|i: int|
            0 <= i < present_of(cands, t).len() ==> #[trigger] present_of(cands, t)[i]
                == cands[cands.len() - 1] || cands.drop_last().contains(present_of(cands, t)[i]),
    decreases cands.len(),
{
    if cands.len() > 0 {
        let d = cands.drop_last();
        lemma_present_of_members(d, t);
        let r = present_of(d, t);
        let p = present_of(cands, t);
        let last = cands[cands.len() - 1];
        assert forall|c: char| #[trigger] p.contains(c) <==> (cands.contains(c) && t.contains(c)) by {
            if cands.contains(c) && t.contains(c) {
                let i = choose|i: int| 0 <= i < cands.len() && cands[i] == c;
                if i < cands.len() - 1 {
                    assert(d[i] == c);
                    assert(r.contains(c));
                    let m = choose|m: int| 0 <= m < r.len() && r[m] == c;
                    assert(p[m] == c);
                } else {
                    assert(p[p.len() - 1] == c);
                }
            }
            if p.contains(c) {
                let m = choose|m: int| 0 <= m < p.len() && p[m] == c;
                if m < r.len() {
                    assert(p[m] == r[m]);
                    assert(r.contains(c));
                    let i = choose|i: int| 0 <= i < d.len() && d[i] == c;
                    assert(cands[i] == c);
                } else {
                    assert(c == last);
                    assert(cands[cands.len() - 1] == c);
                }
            }
        }
        assert forall|i: int, j: int| 0 <= i < j < p.len() implies (p[i] as u32) < (
        p[j] as u32) by {
            if j < r.len() {
                assert(p[i] == r[i] && p[j] == r[j]);
            } else {
                assert(p[j] == last);
                assert(p[i] == r[i]);
                assert(r.contains(r[i]));
                assert(d.contains(r[i]));
                let q = choose|q: int| 0 <= q < d.len() && d[q] == r[i];
                assert(cands[q] == r[i]);
            }
        }
        assert forall|i: int| 0 <= i < p.len() implies #[trigger] p[i] == cands[cands.len() - 1]
            || cands.drop_last().contains(p[i]) by {
            if i < r.len() {
                assert(p[i] == r[i]);
                assert(r.contains(r[i]));
            }
        }
    }
}

/// The forbidden characters reported for a label are exactly those that occur
/// in it, each once, in ascending order: what sorting and deduplicating the
/// forbidden characters met in the label gives.
pub proof fn law_forbidden_chars_are_sorted_and_distinct(t: Seq<char>)
    ensures
        forall|i: int, j: int|
            0 <= i < j < forbidden_in(t).len() ==> (forbidden_in(t)[i] as u32) < (
            forbidden_in(t)[j] as u32),
        forall|c: char| #[trigger]
            forbidden_in(t).contains(c) <==> (is_forbidden(c) && t.contains(c)),
{
    let f = forbidden_sorted();
    assert forall|i: int, j: int| 0 <= i < j < f.len() implies (f[i] as u32) < (f[j] as u32) by {}
    lemma_present_of_members(f, t);
    assert forall|c: char| f.contains(c) <==> is_forbidden(c) by {
        if is_forbidden(c) {
            if c == '"' {
                assert(f[0] == c);
            } else if c == '*' {
                assert(f[1] == c);
            } else if c == '/' {
                assert(f[2] == c);
            } else if c == ':' {
                assert(f[3] == c);
            } else if c == '<' {
                assert(f[4] == c);
            } else if c == '>' {
                assert(f[5] == c);
            } else if c == '?' {
                assert(f[6] == c);
            } else if c == '\\' {
                assert(f[7] == c);
            } else {
                assert(f[8] == c);
            }
        }
    }
}

/// A truncated label never exceeds the filesystem's limit: checking it can
/// only fail on a forbidden character.
pub proof fn law_truncated_label_within_limit(text: Seq<char>, fs_type: FilesystemType)
    ensures
        truncated(text, fs_type).len() <= fs_type.label_limit(),
        trimmed(truncated(text, fs_type)).len() <= fs_type.label_limit(),
        validated_label(truncated(text, fs_type), fs_type) is Err ==> forbidden_in(
            trimmed(truncated(text, fs_type)),
        ).len() > 0,
{
    lemma_trim_by_idempotent(truncated(text, fs_type), TrimClass::WhiteSpace);
}

/// Truncating twice is truncating once.
pub proof fn law_truncate_idempotent(text: Seq<char>, fs_type: FilesystemType)
    ensures
        truncated(truncated(text, fs_type), fs_type) == truncated(text, fs_type),
{
}

/// An accepted label is accepted again, unchanged.
pub proof fn law_accepted_label_is_stable(text: Seq<char>, fs_type: FilesystemType, t: Seq<char>)
    requires
        validated_label(text, fs_type) == Ok::<Option<Seq<char>>, Seq<char>>(Some(t)),
    ensures
        validated_label(t, fs_type) == Ok::<Option<Seq<char>>, Seq<char>>(Some(t)),
{
    lemma_trim_by_idempotent(text, TrimClass::WhiteSpace);
}

/// A label that passes the check reaches the new filesystem as it is: it is
/// given as the format's label option, within the filesystem's limit, and on
/// GPT (ext4) also names the partition; on MBR the partition has no name.
pub proof fn law_accepted_label_reaches_filesystem(
    text: Seq<char>,
    fs_type: FilesystemType,
    t: Seq<char>,
)
    requires
        validated_label(text, fs_type) == Ok::<Option<Seq<char>>, Seq<char>>(Some(t)),
    ensures
        format_label_view(Some(t)) == Some(t),
        t.len() <= fs_type.label_limit(),
        partition_name_view(fs_type, Some(t)) == (if fs_type == FilesystemType::Ext4 {
            t
        } else {
            Seq::<char>::empty()
        }),
{
    reveal_strlit("gpt");
    reveal_strlit("dos");
    if fs_type != FilesystemType::Ext4 {
        assert(fs_type.partition_table_view()[0] != "gpt"@[0]);
    }
}

/// For every filesystem, forbidden characters are checked before anything
/// else: a text whose trimmed form holds any of \ / : * ? " < > | is refused
/// with the message that lists the forbidden characters found, whatever its
/// length; so an accepted label never holds one. An accepted label is the
/// trimmed text, non-empty and within the filesystem's limit; a blank text
/// gives no label.
pub proof fn law_forbidden_chars_refused_for_every_filesystem(
    text: Seq<char>,
    fs_type: FilesystemType,
)
    ensures
        (exists|i: int|
            0 <= i < trimmed(text).len() && {
                let c = #[trigger] trimmed(text)[i];
                c == '\\' || c == '/' || c == ':' || c == '*' || c == '?' || c == '"' || c == '<'
                    || c == '>' || c == '|'
            }) ==> validated_label(text, fs_type) == Err::<Option<Seq<char>>, Seq<char>>(
            forbidden_message(forbidden_in(trimmed(text))),
        ),
        validated_label(text, fs_type) matches Ok(Some(x)) ==> {
            &&& x == trimmed(text)
            &&& 0 < x.len() <= fs_type.label_limit()
            &&& forall|i: int|
                0 <= i < x.len() ==> {
                    let c = #[trigger] x[i];
                    !(c == '\\' || c == '/' || c == ':' || c == '*' || c == '?' || c == '"' || c
                        == '<' || c == '>' || c == '|')
                }
        },
        trimmed(text).len() == 0 <==> validated_label(text, fs_type) == Ok::<
            Option<Seq<char>>,
            Seq<char>,
        >(None),
{
    let t = trimmed(text);
    law_forbidden_chars_are_sorted_and_distinct(t);
    if exists|i: int|
        0 <= i < t.len() && {
            let c = #[trigger] t[i];
            c == '\\' || c == '/' || c == ':' || c == '*' || c == '?' || c == '"' || c == '<' || c
                == '>' || c == '|'
        } {
        let i = choose|i: int|
            0 <= i < t.len() && {
                let c = #[trigger] t[i];
                c == '\\' || c == '/' || c == ':' || c == '*' || c == '?' || c == '"' || c == '<'
                    || c == '>' || c == '|'
            };
        assert(t.contains(t[i]));
        assert(forbidden_in(t).contains(t[i]));
    }
    if validated_label(text, fs_type) is Ok && validated_label(text, fs_type)->Ok_0 is Some {
        let x = t;
        assert forall|i: int| 0 <= i < x.len() implies {
            let c = #[trigger] x[i];
            !(c == '\\' || c == '/' || c == ':' || c == '*' || c == '?' || c == '"' || c == '<'
                || c == '>' || c == '|')
        } by {
            assert(t.contains(x[i]));
            if is_forbidden(x[i]) {
                assert(forbidden_in(t).contains(x[i]));
            }
        }
    }
}

} // verus!
