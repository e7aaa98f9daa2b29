//! KWin scripts that show, hide and toggle Thunderbird's window, and the names
//! used to load them over D-Bus (the D-Bus calls are made by the application).

use crate::text::{
    decimal, is_digit, lemma_decimal_digits, lemma_decimal_injective, push_decimal,
    push_signed_decimal, signed_decimal,
};
use vstd::prelude::*;

verus! {

/// Show Thunderbird: restore to taskbar, un-minimize, and focus.
pub const SHOW_SCRIPT: &'static str = "
var clients = workspace.windowList();
for (var i = 0; i < clients.length; i++) {
    var c = clients[i];
    if (c.resourceClass === \"org.mozilla.Thunderbird\" || c.resourceName === \"thunderbird\") {
        c.skipTaskbar = false;
        c.skipSwitcher = false;
        c.minimized = false;
        workspace.activeWindow = c;
        break;
    }
}
";

/// Hide Thunderbird: minimize it and keep it out of the taskbar and switcher.
pub const HIDE_SCRIPT: &'static str = "
var clients = workspace.windowList();
for (var i = 0; i < clients.length; i++) {
    var c = clients[i];
    if (c.resourceClass === \"org.mozilla.Thunderbird\" || c.resourceName === \"thunderbird\") {
        c.minimized = true;
        c.skipTaskbar = true;
        c.skipSwitcher = true;
        break;
    }
}
";

/// Toggles Thunderbird's visibility based on the actual window state (not on any
/// state kept here): `skipTaskbar` tells whether it is currently hidden.
pub const TOGGLE_SCRIPT: &'static str = "
var clients = workspace.windowList();
for (var i = 0; i < clients.length; i++) {
    var c = clients[i];
    if (c.resourceClass === \"org.mozilla.Thunderbird\" || c.resourceName === \"thunderbird\") {
        if (c.skipTaskbar) {
            c.skipTaskbar = false;
            c.skipSwitcher = false;
            c.minimized = false;
            workspace.activeWindow = c;
        } else {
            c.minimized = true;
            c.skipTaskbar = true;
            c.skipSwitcher = true;
        }
        break;
    }
}
";

/// The plugin name of a process and an invocation.
pub open spec fn plugin_name_text(process_id: nat, invocation: nat) -> Seq<char> {
    "thundertray_"@ + decimal(process_id) + "_"@ + decimal(invocation)
}

/// A plugin name unique to this process and invocation.
pub fn plugin_name(process_id: u32, invocation: u64) -> (r: String)
    ensures
        r@ == plugin_name_text(process_id as nat, invocation as nat),
{
    let mut s = String::from_str("thundertray_");
    push_decimal(&mut s, process_id as u64);
    s.append("_");
    push_decimal(&mut s, invocation);
    s
}

/// The D-Bus object of a loaded script, from `loadScript`'s reply; a negative
/// reply means loading failed.
pub fn loaded_script_path(reply: i32) -> (r: Result<String, String>)
    ensures
        reply >= 0 ==> (r matches Ok(p) && p@ == "/Scripting/Script"@ + decimal(reply as nat)),
        reply < 0 ==> (r matches Err(e) && e@ == "KWin loadScript failed (returned "@
            + signed_decimal(reply as int) + ")"@),
{
    if reply < 0 {
        let mut e = String::from_str("KWin loadScript failed (returned ");
        push_signed_decimal(&mut e, reply as i64);
        e.append(")");
        Err(e)
    } else {
        let mut p = String::from_str("/Scripting/Script");
        push_decimal(&mut p, reply as u64);
        Ok(p)
    }
}

/// Law of plugin names: different processes or invocations get different
/// names, so a script loaded for one invocation never collides with another.
pub proof fn plugin_names_are_unique(p1: nat, i1: nat, p2: nat, i2: nat)
    requires
        plugin_name_text(p1, i1) == plugin_name_text(p2, i2),
    ensures
        p1 == p2,
        i1 == i2,
{
    reveal_strlit("thundertray_");
    reveal_strlit("_");
    let s = plugin_name_text(p1, i1);
    let a = decimal(p1);
    let b = decimal(i1);
    let c = decimal(p2);
    let d = decimal(i2);
    lemma_decimal_digits(p1);
    lemma_decimal_digits(p2);
    assert(s == "thundertray_"@ + a + "_"@ + b);
    assert(s == "thundertray_"@ + c + "_"@ + d);
    let la = a.len() as int;
    let lc = c.len() as int;
    assert(s.len() == 13 + la + b.len());
    if la < lc {
        assert(s[12 + la] == '_');
        assert(s[12 + la] == c[la]);
        assert(is_digit(c[la]));
    } else if lc < la {
        assert(s[12 + lc] == '_');
        assert(s[12 + lc] == a[lc]);
        assert(is_digit(a[lc]));
    } else {
        assert(a =~= s.subrange(12, 12 + la));
        assert(c =~= s.subrange(12, 12 + lc));
        lemma_decimal_injective(p1, p2);
        assert(b =~= s.subrange(13 + la, s.len() as int));
        assert(d =~= s.subrange(13 + lc, s.len() as int));
        lemma_decimal_injective(i1, i2);
    }
}

} // verus!
