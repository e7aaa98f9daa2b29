//! The settings dialog's answer: five lines of text that update the
//! configuration. Running the dialog is done by the application.

use crate::config::Config;
use crate::text::{
    chars_of, line_ranges, lines, parse_u64, parse_u64_spec, range_eq, string_of_range, trim,
    trim_range, trim_string,
};
use vstd::prelude::*;

verus! {

/// The number of bytes of a character in UTF-8 (`char::len_utf8`).
pub open spec fn utf8_width(c: char) -> nat {
    if (c as u32) < 0x80 {
        1
    } else if (c as u32) < 0x800 {
        2
    } else if (c as u32) < 0x10000 {
        3
    } else {
        4
    }
}

/// The number of bytes of a text in UTF-8 (`str::len`).
pub open spec fn utf8_len(s: Seq<char>) -> nat
    decreases s.len(),
{
    if s.len() == 0 {
        0
    } else {
        utf8_len(s.drop_last()) + utf8_width(s.last())
    }
}

/// A colour the dialog may set: it starts with `#` and is at least four bytes long.
pub open spec fn color_candidate(s: Seq<char>) -> bool {
    s.len() > 0 && s[0] == '#' && utf8_len(s) >= 4
}

proof fn lemma_utf8_len_monotone(s: Seq<char>, i: int)
    requires
        0 <= i <= s.len(),
    ensures
        utf8_len(s.take(i)) <= utf8_len(s),
    decreases s.len() - i,
{
    if i < s.len() {
        lemma_utf8_len_monotone(s, i + 1);
        assert(s.take(i + 1).drop_last() =~= s.take(i));
    } else {
        assert(s.take(i) =~= s);
    }
}

/// Whether a text is at least `k` bytes long in UTF-8.
fn utf8_len_at_least(s: &str, k: u64) -> (r: bool)
    requires
        k <= 16,
    ensures
        r == (utf8_len(s@) >= k),
{
    if k == 0 {
        return true;
    }
    let v = chars_of(s);
    let mut total: u64 = 0;
    let mut i: usize = 0;
    assert(v@.take(0) =~= Seq::<char>::empty());
    while i < v.len()
        invariant
            i <= v@.len(),
            v@ == s@,
            total == utf8_len(v@.take(i as int)),
            total < k,
            k <= 16,
        decreases v@.len() - i,
    {
        assert(v@.take(i + 1).drop_last() =~= v@.take(i as int));
        let c = v[i] as u32;
        let w: u64 = if c < 0x80 {
            1
        } else if c < 0x800 {
            2
        } else if c < 0x10000 {
            3
        } else {
            4
        };
        total = total + w;
        i = i + 1;
        if total >= k {
            proof {
                lemma_utf8_len_monotone(v@, i as int);
            }
            return true;
        }
    }
    assert(v@.take(v@.len() as int) =~= v@);
    total >= k
}

/// The dialog's lines, each trimmed.
pub open spec fn dialog_lines(stdout: Seq<char>) -> Seq<Seq<char>> {
    lines(trim(stdout)).map_values(|l: Seq<char>| trim(l))
}

/// The configuration after the dialog's answer: line 1 is the Thunderbird command
/// (kept when blank), line 2 `true` or anything else for auto-start, lines 3 and 4
/// the badge colours (kept unless they look like colours), line 5 the poll
/// interval in seconds (kept unless it is a number of at least 1). Other values
/// are kept.
pub open spec fn applied(old: Config, new: Config, ls: Seq<Seq<char>>) -> bool {
    &&& new.general.thunderbird_command@ == if ls[0].len() > 0 {
        ls[0]
    } else {
        old.general.thunderbird_command@
    }
    &&& new.general.auto_start_thunderbird == (ls[1] == "true"@)
    &&& new.appearance.badge_color@ == if color_candidate(ls[2]) {
        ls[2]
    } else {
        old.appearance.badge_color@
    }
    &&& new.appearance.badge_text_color@ == if color_candidate(ls[3]) {
        ls[3]
    } else {
        old.appearance.badge_text_color@
    }
    &&& new.monitoring.poll_interval_secs == match parse_u64_spec(ls[4]) {
        Some(secs) => if secs >= 1 {
            secs
        } else {
            old.monitoring.poll_interval_secs
        },
        None => old.monitoring.poll_interval_secs,
    }
    &&& new.monitoring.profile_path == old.monitoring.profile_path
    &&& new.monitoring.folders == old.monitoring.folders
}

/// One trimmed line of the answer as a string.
fn dialog_line(v: &Vec<char>, ranges: &Vec<(usize, usize)>, i: usize) -> (r: String)
    requires
        i < ranges@.len(),
        forall|j: int| 0 <= j < ranges@.len() ==> #[trigger] ranges@[j].0 <= ranges@[j].1 <= v@.len(),
    ensures
        r@ == trim(v@.subrange(ranges@[i as int].0 as int, ranges@[i as int].1 as int)),
{
    let (lo, hi) = ranges[i];
    let (a, b) = trim_range(v, lo, hi);
    string_of_range(v, a, b)
}

/// Applies the dialog's answer. With exactly five lines the updated configuration
/// is returned (the application then saves it, which validates it); any other
/// answer changes nothing.
pub fn apply_settings_output(config: Config, stdout: &str) -> (r: Option<Config>)
    ensures
        dialog_lines(stdout@).len() != 5 ==> r is None,
        dialog_lines(stdout@).len() == 5 ==> (r matches Some(c) && applied(
            config,
            c,
            dialog_lines(stdout@),
        )),
{
    let trimmed = trim_string(stdout);
    let v = chars_of(trimmed.as_str());
    let ranges = line_ranges(&v);
    let ghost ls = dialog_lines(stdout@);
    let ghost raw = lines(v@);
    assert(ranges@.len() == raw.len());
    assert(ls.len() == raw.len());
    if ranges.len() != 5 {
        return None;
    }
    let mut config = config;
    let ghost old_config = config;
    let cmd = dialog_line(&v, &ranges, 0);
    assert(cmd@ == ls[0]);
    if cmd.as_str().unicode_len() > 0 {
        config.general.thunderbird_command = cmd;
    }
    let auto = dialog_line(&v, &ranges, 1);
    assert(auto@ == ls[1]);
    let auto_v = chars_of(auto.as_str());
    assert(auto_v@.subrange(0, auto_v@.len() as int) =~= auto_v@);
    config.general.auto_start_thunderbird = range_eq(&auto_v, 0, auto_v.len(), "true");
    let badge = dialog_line(&v, &ranges, 2);
    assert(badge@ == ls[2]);
    if badge.as_str().unicode_len() > 0 && badge.as_str().get_char(0) == '#' && utf8_len_at_least(
        badge.as_str(),
        4,
    ) {
        config.appearance.badge_color = badge;
    }
    let text_color = dialog_line(&v, &ranges, 3);
    assert(text_color@ == ls[3]);
    if text_color.as_str().unicode_len() > 0 && text_color.as_str().get_char(0) == '#'
        && utf8_len_at_least(text_color.as_str(), 4) {
        config.appearance.badge_text_color = text_color;
    }
    let secs_line = dialog_line(&v, &ranges, 4);
    assert(secs_line@ == ls[4]);
    let secs_v = chars_of(secs_line.as_str());
    assert(secs_v@.subrange(0, secs_v@.len() as int) =~= secs_v@);
    match parse_u64(&secs_v, 0, secs_v.len()) {
        Some(secs) => if secs >= 1 {
            config.monitoring.poll_interval_secs = secs;
        },
        None => {},
    }
    Some(config)
}

} // verus!
