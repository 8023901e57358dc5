use vstd::prelude::*;

use crate::text::{decimal, decimal_string, push_decimal};

verus! {

/// The label of a folder group: "フォルダN" counting from 1, or "全フォルダ" for all groups.
pub open spec fn folder_label_spec(folder: Option<usize>) -> Seq<char> {
    match folder {
        Some(index) => "フォルダ"@ + decimal(index as nat + 1),
        None => "全フォルダ"@,
    }
}

/// The label of a folder group: "フォルダN" counting from 1, or "全フォルダ" for all groups.
pub fn folder_label(folder: Option<usize>) -> (r: String)
    ensures
        r@ == folder_label_spec(folder),
{
    match folder {
        Some(index) => {
            let mut out = String::from_str("フォルダ");
            push_decimal(&mut out, index as u128 + 1);
            out
        },
        None => String::from_str("全フォルダ"),
    }
}

/// The label of a preset's hotkey: "F" and the key's number, or "なし".
pub fn preset_hotkey_label(hotkey: Option<u8>) -> (r: String)
    ensures
        r@ == match hotkey {
            Some(key) => "F"@ + decimal(key as nat),
            None => "なし"@,
        },
{
    match hotkey {
        Some(key) => {
            let mut out = String::from_str("F");
            push_decimal(&mut out, key as u128);
            out
        },
        None => String::from_str("なし"),
    }
}

/// A log line's time stamp for a clock read as milliseconds since the Unix epoch.
pub fn timestamp(millis: u128) -> (r: String)
    ensures
        r@ == "epoch+"@ + decimal(millis as nat) + "ms"@,
{
    let mut out = String::from_str("epoch+");
    push_decimal(&mut out, millis);
    out.append("ms");
    out
}

/// `s` with `0`s in front, up to `width` characters (as `{:0width$}` formats a number).
pub open spec fn zero_padded(s: Seq<char>, width: nat) -> Seq<char> {
    if s.len() >= width {
        s
    } else {
        Seq::new((width - s.len()) as nat, |i: int| '0') + s
    }
}

/// Appends `n` in decimal, with `0`s in front up to `width` digits.
fn push_zero_padded(out: &mut String, n: u128, width: usize)
    ensures
        final(out)@ == old(out)@ + zero_padded(decimal(n as nat), width as nat),
{
    let digits = decimal_string(n);
    let len = digits.unicode_len();
    let ghost start = out@;
    let mut k = len;
    assert(Seq::new(0, |i: int| '0') =~= Seq::<char>::empty());
    assert(out@ =~= start + Seq::new((k - len) as nat, |i: int| '0'));
    while k < width
        invariant
            len == digits@.len(),
            len <= k,
            k == len || k <= width,
            out@ == start + Seq::new((k - len) as nat, |i: int| '0'),
        decreases width - k,
    {
        proof {
            reveal_strlit("0");
        }
        out.append("0");
        assert(out@ =~= start + Seq::new((k + 1 - len) as nat, |i: int| '0'));
        k += 1;
    }
    out.append(digits.as_str());
    assert(out@ =~= start + zero_padded(decimal(n as nat), width as nat));
}

/// A log line's time stamp for a local date and time:
/// `YYYY-MM-DD hh:mm:ss.mmm`, each field zero-padded to its width.
pub fn local_timestamp(year: u16, month: u16, day: u16, hour: u16, minute: u16, second: u16, millis: u16) -> (r:
    String)
    ensures
        r@ == zero_padded(decimal(year as nat), 4) + "-"@ + zero_padded(decimal(month as nat), 2) + "-"@
            + zero_padded(decimal(day as nat), 2) + " "@ + zero_padded(decimal(hour as nat), 2) + ":"@
            + zero_padded(decimal(minute as nat), 2) + ":"@ + zero_padded(decimal(second as nat), 2) + "."@
            + zero_padded(decimal(millis as nat), 3),
{
    let mut out = String::new();
    push_zero_padded(&mut out, year as u128, 4);
    out.append("-");
    push_zero_padded(&mut out, month as u128, 2);
    out.append("-");
    push_zero_padded(&mut out, day as u128, 2);
    out.append(" ");
    push_zero_padded(&mut out, hour as u128, 2);
    out.append(":");
    push_zero_padded(&mut out, minute as u128, 2);
    out.append(":");
    push_zero_padded(&mut out, second as u128, 2);
    out.append(".");
    push_zero_padded(&mut out, millis as u128, 3);
    out
}

/// The message shown after the active video folder was rescanned.
pub fn reload_message(active_folder: Option<usize>, count: usize) -> (r: String)
    ensures
        r@ == folder_label_spec(active_folder) + " を再読み込みしました: "@ + decimal(count as nat)
            + " videos"@,
{
    let mut out = folder_label(active_folder);
    out.append(" を再読み込みしました: ");
    push_decimal(&mut out, count as u128);
    out.append(" videos");
    out
}

/// `prefix` followed by the folder label.
pub fn with_folder_label(prefix: &str, folder: Option<usize>) -> (r: String)
    ensures
        r@ == prefix@ + folder_label_spec(folder),
{
    let mut out = String::from_str(prefix);
    let label = folder_label(folder);
    out.append(label.as_str());
    out
}

/// The folder label followed by `suffix`.
pub fn folder_label_with(folder: Option<usize>, suffix: &str) -> (r: String)
    ensures
        r@ == folder_label_spec(folder) + suffix@,
{
    let mut out = folder_label(folder);
    out.append(suffix);
    out
}

/// `prefix` followed by `text`.
pub fn prefixed(prefix: &str, text: &str) -> (r: String)
    ensures
        r@ == prefix@ + text@,
{
    let mut out = String::from_str(prefix);
    out.append(text);
    out
}

} // verus!
