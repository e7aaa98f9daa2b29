//! What installation writes: where files go and the user service unit, and
//! what `status` reports.
//!
//! Copying files, writing them, calling `systemctl` and looking at the files is
//! done by the application.

use crate::path::{join, join_path};
use crate::text::{chars_of, decimal, push_decimal};
use vstd::prelude::*;

verus! {

/// Escapes a path for a systemd unit: backslashes and double quotes are escaped
/// and the result is put in double quotes.
pub open spec fn systemd_escape(s: Seq<char>) -> Seq<char>
    decreases s.len(),
{
    if s.len() == 0 {
        Seq::empty()
    } else {
        systemd_escape(s.drop_last()) + if s.last() == '\\' {
            seq!['\\', '\\']
        } else if s.last() == '"' {
            seq!['\\', '"']
        } else {
            seq![s.last()]
        }
    }
}

/// Quotes a path for `ExecStart=`.
pub fn systemd_quote(path: &str) -> (r: String)
    ensures
        r@ == seq!['"'] + systemd_escape(path@) + seq!['"'],
{
    let v = chars_of(path);
    let mut r = String::new();
    r.push('"');
    let mut i: usize = 0;
    assert(v@.take(0) =~= Seq::<char>::empty());
    while i < v.len()
        invariant
            i <= v@.len(),
            v@ == path@,
            r@ == seq!['"'] + systemd_escape(v@.take(i as int)),
        decreases v@.len() - i,
    {
        assert(v@.take(i + 1).drop_last() =~= v@.take(i as int));
        let c = v[i];
        if c == '\\' {
            r.push('\\');
            r.push('\\');
        } else if c == '"' {
            r.push('\\');
            r.push('"');
        } else {
            r.push(c);
        }
        i = i + 1;
        assert(r@ =~= seq!['"'] + systemd_escape(v@.take(i as int)));
    }
    assert(v@.take(v@.len() as int) =~= v@);
    r.push('"');
    r
}

/// The start of the user service unit, up to `ExecStart=`.
pub const UNIT_HEAD: &'static str = "[Unit]\nDescription=ThunderTray - Thunderbird system tray integration\nAfter=graphical-session.target\nPartOf=graphical-session.target\n\n[Service]\nType=simple\nExecStart=";

/// The rest of the user service unit after the executable.
pub const UNIT_TAIL: &'static str = "\nRestart=on-failure\nRestartSec=5\nEnvironment=RUST_LOG=info\nEnvironment=PATH=/usr/local/bin:/usr/bin:/bin:/var/lib/flatpak/exports/bin:/snap/bin\n\n[Install]\nWantedBy=graphical-session.target\n";

/// The systemd user service that runs the installed binary.
pub fn service_unit(installed_binary: &str) -> (r: String)
    ensures
        r@ == UNIT_HEAD@ + seq!['"'] + systemd_escape(installed_binary@) + seq!['"'] + UNIT_TAIL@,
{
    let mut r = String::from_str(UNIT_HEAD);
    let quoted = systemd_quote(installed_binary);
    r.append(quoted.as_str());
    r.append(UNIT_TAIL);
    r
}

/// Where the binary is installed: `~/.local/bin/thundertray`.
pub fn stable_binary_path(home: &str) -> (r: String)
    ensures
        r@ == join(home@, ".local/bin/thundertray"@),
{
    join_path(home, ".local/bin/thundertray")
}

/// Where the user service is written, below the user configuration directory.
pub fn systemd_service_path(config_dir: &str) -> (r: String)
    ensures
        r@ == join(config_dir@, "systemd/user/thundertray.service"@),
{
    join_path(config_dir, "systemd/user/thundertray.service")
}

/// The obsolete desktop autostart entry, below the user configuration directory.
pub fn autostart_path(config_dir: &str) -> (r: String)
    ensures
        r@ == join(config_dir@, "autostart/thundertray.desktop"@),
{
    join_path(config_dir, "autostart/thundertray.desktop")
}

/// ThunderTray's configuration directory, below the user configuration directory.
pub fn config_dir_path(config_dir: &str) -> (r: String)
    ensures
        r@ == join(config_dir@, "thundertray"@),
{
    join_path(config_dir, "thundertray")
}

/// How the service is brought up after installing.
#[derive(Debug, Clone, Copy, PartialEq, Eq, Structural)]
pub enum Activation {
    /// It was running an older binary: restart it so the update takes effect.
    Restart,
    /// It was not running: start it.
    Start,
}

/// Chooses how to bring the service up: an active service is restarted.
pub fn activation_for(was_active: bool) -> (r: Activation)
    ensures
        r == (if was_active {
            Activation::Restart
        } else {
            Activation::Start
        }),
{
    if was_active {
        Activation::Restart
    } else {
        Activation::Start
    }
}

impl Activation {
    /// The `systemctl --user` verb.
    pub fn verb(&self) -> (r: &'static str)
        ensures
            r@ == match self {
                Activation::Restart => "restart"@,
                Activation::Start => "start"@,
            },
    {
        match self {
            Activation::Restart => "restart",
            Activation::Start => "start",
        }
    }

    /// What is reported if it fails.
    pub fn description(&self) -> (r: &'static str)
        ensures
            r@ == match self {
                Activation::Restart => "restarting ThunderTray after update"@,
                Activation::Start => "starting ThunderTray"@,
            },
    {
        match self {
            Activation::Restart => "restarting ThunderTray after update",
            Activation::Start => "starting ThunderTray",
        }
    }
}

/// What the status report found about the profile: its path with the number of
/// monitored inboxes and their unread total, or why no profile was found.
pub enum ProfileStatus {
    Found { profile: String, inboxes: u64, unread: u32 },
    NotFound { reason: String },
}

/// What `status` looked at. `profile` is `None` when the report stops before the
/// profile, because the configuration could not be read.
pub struct StatusFacts {
    pub service_active: bool,
    pub installed_binary: String,
    pub binary_present: bool,
    pub service_file: String,
    pub service_file_present: bool,
    pub thunderbird_running: bool,
    pub config_file: String,
    pub config_present: bool,
    pub profile: Option<ProfileStatus>,
}

/// `present` or `missing`.
pub open spec fn presence_text(present: bool) -> Seq<char> {
    if present {
        "present"@
    } else {
        "missing"@
    }
}

/// A file's line: its label, its path and whether it exists.
pub open spec fn file_line(label: Seq<char>, path: Seq<char>, present: bool) -> Seq<char> {
    label + path + " ("@ + presence_text(present) + ")"@
}

/// The lines about the profile.
pub open spec fn profile_lines(p: ProfileStatus) -> Seq<Seq<char>> {
    match p {
        ProfileStatus::Found { profile, inboxes, unread } => seq![
            "  Profile: "@ + profile@,
            "  Monitoring: "@ + decimal(inboxes as nat) + " inbox(es), "@ + decimal(unread as nat)
                + " unread"@,
        ],
        ProfileStatus::NotFound { reason } => seq!["  Profile: not found ("@ + reason@ + ")"@],
    }
}

/// The advice given when the service is not running.
pub open spec fn remedy_line() -> Seq<char> {
    "  Remedy: run `thundertray install` or inspect `journalctl --user -u thundertray -n 20`."@
}

/// The status report, line by line.
pub open spec fn status_lines(f: StatusFacts) -> Seq<Seq<char>> {
    seq![
        "ThunderTray status"@,
        "  Service: "@ + if f.service_active {
            "running"@
        } else {
            "stopped"@
        },
        file_line("  Installed binary: "@, f.installed_binary@, f.binary_present),
        file_line("  Service file: "@, f.service_file@, f.service_file_present),
        "  Thunderbird: "@ + if f.thunderbird_running {
            "running"@
        } else {
            "not running"@
        },
        file_line("  Config: "@, f.config_file@, f.config_present),
    ] + match f.profile {
        Some(p) => profile_lines(p) + if f.service_active {
            Seq::empty()
        } else {
            seq![remedy_line()]
        },
        None => Seq::empty(),
    }
}

fn file_line_text(label: &str, path: &str, present: bool) -> (r: String)
    ensures
        r@ == file_line(label@, path@, present),
{
    let mut r = String::from_str(label);
    r.append(path);
    r.append(" (");
    if present {
        r.append("present");
    } else {
        r.append("missing");
    }
    r.append(")");
    r
}

/// The lines `status` prints for what it found.
pub fn status_report(facts: &StatusFacts) -> (r: Vec<String>)
    ensures
        r@.map_values(|l: String| l@) == status_lines(*facts),
{
    let mut lines: Vec<String> = Vec::new();
    lines.push(String::from_str("ThunderTray status"));
    let mut service = String::from_str("  Service: ");
    if facts.service_active {
        service.append("running");
    } else {
        service.append("stopped");
    }
    lines.push(service);
    lines.push(
        file_line_text(
            "  Installed binary: ",
            facts.installed_binary.as_str(),
            facts.binary_present,
        ),
    );
    lines.push(
        file_line_text(
            "  Service file: ",
            facts.service_file.as_str(),
            facts.service_file_present,
        ),
    );
    let mut thunderbird = String::from_str("  Thunderbird: ");
    if facts.thunderbird_running {
        thunderbird.append("running");
    } else {
        thunderbird.append("not running");
    }
    lines.push(thunderbird);
    lines.push(file_line_text("  Config: ", facts.config_file.as_str(), facts.config_present));
    match &facts.profile {
        Some(ProfileStatus::Found { profile, inboxes, unread }) => {
            let mut p = String::from_str("  Profile: ");
            p.append(profile.as_str());
            lines.push(p);
            let mut m = String::from_str("  Monitoring: ");
            push_decimal(&mut m, *inboxes);
            m.append(" inbox(es), ");
            push_decimal(&mut m, *unread as u64);
            m.append(" unread");
            lines.push(m);
        },
        Some(ProfileStatus::NotFound { reason }) => {
            let mut p = String::from_str("  Profile: not found (");
            p.append(reason.as_str());
            p.append(")");
            lines.push(p);
        },
        None => {},
    }
    if facts.profile.is_some() && !facts.service_active {
        lines.push(
            String::from_str(
                "  Remedy: run `thundertray install` or inspect `journalctl --user -u thundertray -n 20`.",
            ),
        );
    }
    assert(lines@.map_values(|l: String| l@) =~= status_lines(*facts));
    lines
}

/// Law of the status report: the service line says `running` exactly when the
/// service is active, and the Thunderbird line says `running` exactly when
/// Thunderbird runs, whatever the other facts.
pub proof fn status_reports_each_state_on_its_own(f: StatusFacts)
    ensures
        status_lines(f)[1] == "  Service: running"@ <==> f.service_active,
        status_lines(f)[4] == "  Thunderbird: running"@ <==> f.thunderbird_running,
{
    reveal_strlit("  Service: ");
    reveal_strlit("running");
    reveal_strlit("stopped");
    reveal_strlit("  Service: running");
    reveal_strlit("  Thunderbird: ");
    reveal_strlit("not running");
    reveal_strlit("  Thunderbird: running");
    let lines = status_lines(f);
    if f.service_active {
        assert(lines[1] =~= "  Service: running"@);
    } else {
        assert(lines[1].len() == "  Service: running"@.len());
        assert(lines[1][11] == 's');
        assert("  Service: running"@[11] == 'r');
    }
    if f.thunderbird_running {
        assert(lines[4] =~= "  Thunderbird: running"@);
    } else {
        assert(lines[4].len() != "  Thunderbird: running"@.len());
    }
}

} // verus!
