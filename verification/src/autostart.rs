//! Starting the listener at login: the files and commands of each platform, and what they
//! mean for the user.
//!
//! A launcher that keeps the listener alive owns it. Killing its child just makes it
//! respawn, so restarting must go through the launcher, never around it.
use vstd::prelude::*;
use crate::number::{decimal, to_decimal};
use crate::paths::{HomePath, wisper_dir, wisper_place};
use crate::text::{has, same, stands_at, stands_inside, stays_in_front, texts};

verus! {

pub const LAUNCH_AGENT_LABEL: &'static str = "com.nextbase.wisper";

pub const LEGACY_LAUNCH_AGENT_LABEL: &'static str = "com.wisper.cli";

pub const TASK_NAME: &'static str = "NextbaseWisper";

pub const SERVICE_NAME: &'static str = "nextbase-wisper.service";

#[derive(Debug)]
pub struct AutostartResult {
    pub enabled: bool,
    pub message: String,
}

// --------------------------------------------------------------------------- files

pub open spec fn agent_place(label: Seq<char>) -> Seq<Seq<char>> {
    seq!["Library"@, "LaunchAgents"@, label + ".plist"@]
}

pub fn launch_agents_dir() -> (r: HomePath)
    ensures
        r@ == seq!["Library"@, "LaunchAgents"@],
{
    HomePath::at("Library").join("LaunchAgents")
}

pub fn launch_agent_file() -> (r: HomePath)
    ensures
        r@ == agent_place(LAUNCH_AGENT_LABEL@),
{
    launch_agents_dir().join(LAUNCH_AGENT_LABEL.to_owned().concat(".plist").as_str())
}

/// The entry of an older install. While it is there, both would register the same shortcuts
/// and every press would fire twice.
pub fn legacy_launch_agent_file() -> (r: HomePath)
    ensures
        r@ == agent_place(LEGACY_LAUNCH_AGENT_LABEL@),
{
    launch_agents_dir().join(LEGACY_LAUNCH_AGENT_LABEL.to_owned().concat(".plist").as_str())
}

/// Whether the older entry is there, given whether its file exists.
pub fn legacy_autostart_present(target_os: &str, file_exists: bool) -> (r: bool)
    ensures
        r == (target_os@ == "macos"@ && file_exists),
{
    same(target_os, "macos") && file_exists
}

pub fn launchd_log_file() -> (r: HomePath)
    ensures
        r@ == wisper_place("launchd.log"@),
{
    wisper_dir().join("launchd.log")
}

pub fn service_file() -> (r: HomePath)
    ensures
        r@ == seq![".config"@, "systemd"@, "user"@, SERVICE_NAME@],
{
    HomePath::at(".config").join("systemd").join("user").join(SERVICE_NAME)
}

/// Where the shim lies, from the roaming application data of a user on.
pub fn startup_parts() -> (r: Vec<String>)
    ensures
        texts(r@) == seq![
            "Microsoft"@,
            "Windows"@,
            "Start Menu"@,
            "Programs"@,
            "Startup"@,
            TASK_NAME@ + ".vbs"@,
        ],
{
    let r = vec![
        "Microsoft".to_owned(),
        "Windows".to_owned(),
        "Start Menu".to_owned(),
        "Programs".to_owned(),
        "Startup".to_owned(),
        TASK_NAME.to_owned().concat(".vbs"),
    ];
    assert(texts(r@) =~= seq![
        "Microsoft"@,
        "Windows"@,
        "Start Menu"@,
        "Programs"@,
        "Startup"@,
        TASK_NAME@ + ".vbs"@,
    ]);
    r
}

// ------------------------------------------------------------------------ contents

pub open spec fn plist_text(exe: Seq<char>, log: Seq<char>) -> Seq<char> {
    "<?xml version=\"1.0\" encoding=\"UTF-8\"?>\n<!DOCTYPE plist PUBLIC \"-//Apple//DTD PLIST 1.0//EN\" \"http://www.apple.com/DTDs/PropertyList-1.0.dtd\">\n<plist version=\"1.0\">\n  <dict>\n    <key>Label</key><string>"@
        + LAUNCH_AGENT_LABEL@
        + "</string>\n    <key>ProgramArguments</key>\n    <array>\n      <string>"@ + exe
        + "</string>\n      <string>_listen</string>\n    </array>\n    <key>RunAtLoad</key><true/>\n    <key>KeepAlive</key><true/>\n    <key>ThrottleInterval</key><integer>10</integer>\n    <key>StandardOutPath</key><string>"@
        + log + "</string>\n    <key>StandardErrorPath</key><string>"@ + log
        + "</string>\n  </dict>\n</plist>\n"@
}

/// The LaunchAgent. It logs stdout and stderr to a file: a listener that crashes on every
/// start must not look like silence.
pub fn plist(exe: &str, log: &str) -> (r: String)
    ensures
        r@ == plist_text(exe@, log@),
{
    "<?xml version=\"1.0\" encoding=\"UTF-8\"?>\n<!DOCTYPE plist PUBLIC \"-//Apple//DTD PLIST 1.0//EN\" \"http://www.apple.com/DTDs/PropertyList-1.0.dtd\">\n<plist version=\"1.0\">\n  <dict>\n    <key>Label</key><string>".to_owned().concat(
        LAUNCH_AGENT_LABEL,
    ).concat("</string>\n    <key>ProgramArguments</key>\n    <array>\n      <string>").concat(
        exe,
    ).concat(
        "</string>\n      <string>_listen</string>\n    </array>\n    <key>RunAtLoad</key><true/>\n    <key>KeepAlive</key><true/>\n    <key>ThrottleInterval</key><integer>10</integer>\n    <key>StandardOutPath</key><string>",
    ).concat(log).concat("</string>\n    <key>StandardErrorPath</key><string>").concat(log).concat(
        "</string>\n  </dict>\n</plist>\n",
    )
}

pub open spec fn shim_text(exe: Seq<char>) -> Seq<char> {
    "Set WshShell = CreateObject(\"WScript.Shell\")\r\nWshShell.Run \"\"\""@ + exe
        + "\"\" _listen\", 0, False\r\n"@
}

/// A VBScript shim keeps the console window hidden.
pub fn shim(exe: &str) -> (r: String)
    ensures
        r@ == shim_text(exe@),
{
    "Set WshShell = CreateObject(\"WScript.Shell\")\r\nWshShell.Run \"\"\"".to_owned().concat(
        exe,
    ).concat("\"\" _listen\", 0, False\r\n")
}

pub open spec fn task_script_text(startup_file: Seq<char>) -> Seq<char> {
    "$A = New-ScheduledTaskAction -Execute 'wscript.exe' -Argument '//B \""@ + startup_file
        + "\"'; $T = New-ScheduledTaskTrigger -AtLogOn; $S = New-ScheduledTaskSettingsSet -Hidden -AllowStartIfOnBatteries -DontStopIfGoingOnBatteries; Register-ScheduledTask -TaskName '"@
        + TASK_NAME@ + "' -Action $A -Trigger $T -Settings $S -Force | Out-Null"@
}

pub fn task_script(startup_file: &str) -> (r: String)
    ensures
        r@ == task_script_text(startup_file@),
{
    "$A = New-ScheduledTaskAction -Execute 'wscript.exe' -Argument '//B \"".to_owned().concat(
        startup_file,
    ).concat(
        "\"'; $T = New-ScheduledTaskTrigger -AtLogOn; $S = New-ScheduledTaskSettingsSet -Hidden -AllowStartIfOnBatteries -DontStopIfGoingOnBatteries; Register-ScheduledTask -TaskName '",
    ).concat(TASK_NAME).concat("' -Action $A -Trigger $T -Settings $S -Force | Out-Null")
}

pub open spec fn service_unit(exe: Seq<char>) -> Seq<char> {
    "[Unit]\nDescription=Wisper background listener\nAfter=default.target\n\n[Service]\nExecStart="@
        + exe + " _listen\nRestart=always\nRestartSec=3\n\n[Install]\nWantedBy=default.target\n"@
}

pub fn service_text(exe: &str) -> (r: String)
    ensures
        r@ == service_unit(exe@),
{
    "[Unit]\nDescription=Wisper background listener\nAfter=default.target\n\n[Service]\nExecStart=".to_owned().concat(
        exe,
    ).concat(" _listen\nRestart=always\nRestartSec=3\n\n[Install]\nWantedBy=default.target\n")
}

pub fn launchd_target(uid: u32) -> (r: String)
    ensures
        r@ == "gui/"@ + decimal(uid as nat) + "/"@ + LAUNCH_AGENT_LABEL@,
{
    "gui/".to_owned().concat(to_decimal(uid as u64).as_str()).concat("/").concat(
        LAUNCH_AGENT_LABEL,
    )
}

// ------------------------------------------------------------------------ commands

/// The command that restarts the listener through its launcher. `None` where nothing
/// revives it, and a plain respawn is enough.
pub fn restart(target_os: &str, uid: u32) -> (r: Option<Vec<String>>)
    ensures
        match r {
            Some(command) => target_os@ != "windows"@ && texts(command@) == if target_os@
                == "macos"@ {
                seq![
                    "launchctl"@,
                    "kickstart"@,
                    "-k"@,
                    "gui/"@ + decimal(uid as nat) + "/"@ + LAUNCH_AGENT_LABEL@,
                ]
            } else {
                seq!["systemctl"@, "--user"@, "restart"@, SERVICE_NAME@]
            },
            None => target_os@ == "windows"@,
        },
{
    proof {
        reveal_strlit("macos");
        reveal_strlit("windows");
        assert("macos"@.len() != "windows"@.len());
    }
    if same(target_os, "windows") {
        return None;
    }
    let mut command: Vec<String> = Vec::new();
    if same(target_os, "macos") {
        command.push("launchctl".to_owned());
        command.push("kickstart".to_owned());
        command.push("-k".to_owned());
        command.push(launchd_target(uid));
        assert(texts(command@) =~= seq![
            "launchctl"@,
            "kickstart"@,
            "-k"@,
            "gui/"@ + decimal(uid as nat) + "/"@ + LAUNCH_AGENT_LABEL@,
        ]);
    } else {
        command.push("systemctl".to_owned());
        command.push("--user".to_owned());
        command.push("restart".to_owned());
        command.push(SERVICE_NAME.to_owned());
        assert(texts(command@) =~= seq!["systemctl"@, "--user"@, "restart"@, SERVICE_NAME@]);
    }
    Some(command)
}

/// Whether a launcher owns the listener, given whether its file exists. Nothing revives it
/// on Windows.
pub fn managed(target_os: &str, file_exists: bool) -> (r: bool)
    ensures
        r == (target_os@ != "windows"@ && file_exists),
{
    !same(target_os, "windows") && file_exists
}

// ------------------------------------------------------------------------- results

/// What is found of autostart: whether its file exists, and on Windows whether the logon
/// task does.
pub open spec fn status_text(target_os: Seq<char>, file: Seq<char>, present: bool, task: bool) -> Seq<
    char,
> {
    if target_os == "windows"@ {
        if task {
            "Autostart enabled: logon task registered."@
        } else if present {
            "Autostart enabled: Startup folder entry present."@
        } else {
            "Autostart disabled: no logon task or Startup entry."@
        }
    } else if present {
        "Autostart enabled: "@ + file
    } else if target_os == "macos"@ {
        "Autostart disabled: no LaunchAgent found."@
    } else {
        "Autostart disabled: no systemd user service found."@
    }
}

pub fn status(target_os: &str, file: &str, present: bool, task: bool) -> (r: AutostartResult)
    ensures
        r.enabled == (present || target_os@ == "windows"@ && task),
        r.message@ == status_text(target_os@, file@, present, task),
{
    if same(target_os, "windows") {
        let message = if task {
            "Autostart enabled: logon task registered."
        } else if present {
            "Autostart enabled: Startup folder entry present."
        } else {
            "Autostart disabled: no logon task or Startup entry."
        };
        return AutostartResult { enabled: task || present, message: message.to_owned() };
    }
    let message = if present {
        "Autostart enabled: ".to_owned().concat(file)
    } else if same(target_os, "macos") {
        "Autostart disabled: no LaunchAgent found.".to_owned()
    } else {
        "Autostart disabled: no systemd user service found.".to_owned()
    };
    AutostartResult { enabled: present, message }
}

/// What enabling gives, once the files are written. On macOS `first` is whether the agent
/// was bootstrapped and `second` whether it was loaded the older way; on Windows `first` is
/// whether the logon task was registered; elsewhere `first` is whether the service was
/// enabled.
pub fn enabled(target_os: &str, file: &str, first: bool, second: bool) -> (r: AutostartResult)
    ensures
        if target_os@ == "windows"@ {
            r.enabled && r.message@ == if first {
                "Autostart enabled as a hidden logon task."@
            } else {
                "Autostart enabled via the Startup folder (scheduled task was blocked)."@
            }
        } else if target_os@ == "macos"@ {
            r.enabled == (first || second) && r.message@ == if first {
                "Autostart enabled with a LaunchAgent."@
            } else {
                "Autostart file written to "@ + file@ + "."@
            }
        } else {
            r.enabled == first && r.message@ == "Autostart service written to "@ + file@ + "."@
        },
{
    if same(target_os, "windows") {
        let message = if first {
            "Autostart enabled as a hidden logon task."
        } else {
            "Autostart enabled via the Startup folder (scheduled task was blocked)."
        };
        return AutostartResult { enabled: true, message: message.to_owned() };
    }
    if same(target_os, "macos") {
        if first {
            return AutostartResult {
                enabled: true,
                message: "Autostart enabled with a LaunchAgent.".to_owned(),
            };
        }
        return AutostartResult {
            enabled: second,
            message: "Autostart file written to ".to_owned().concat(file).concat("."),
        };
    }
    AutostartResult {
        enabled: first,
        message: "Autostart service written to ".to_owned().concat(file).concat("."),
    }
}

/// What disabling gives.
pub fn disabled(target_os: &str) -> (r: AutostartResult)
    ensures
        !r.enabled,
        r.message@ == if target_os@ == "windows"@ {
            "Autostart disabled. Startup entries removed."@
        } else if target_os@ == "macos"@ {
            "Autostart disabled. LaunchAgent removed."@
        } else {
            "Autostart disabled. systemd user service removed."@
        },
{
    let message = if same(target_os, "windows") {
        "Autostart disabled. Startup entries removed."
    } else if same(target_os, "macos") {
        "Autostart disabled. LaunchAgent removed."
    } else {
        "Autostart disabled. systemd user service removed."
    };
    AutostartResult { enabled: false, message: message.to_owned() }
}

/// This build never writes over the entry of an older install.
pub proof fn labels_do_not_collide()
    ensures
        agent_place(LAUNCH_AGENT_LABEL@) != agent_place(LEGACY_LAUNCH_AGENT_LABEL@),
{
    reveal_strlit("com.nextbase.wisper");
    reveal_strlit("com.wisper.cli");
    let a = agent_place(LAUNCH_AGENT_LABEL@)[2];
    let b = agent_place(LEGACY_LAUNCH_AGENT_LABEL@)[2];
    assert(LAUNCH_AGENT_LABEL@.len() == 19);
    assert(LEGACY_LAUNCH_AGENT_LABEL@.len() == 14);
    assert(a.len() != b.len());
}

/// What is started at login is this program as a listener, and what it says goes to the log.
#[verifier::spinoff_prover]
pub proof fn the_program_itself_is_started(exe: Seq<char>, log: Seq<char>) -> (places: (int, int, int))
    ensures
        stands_at(plist_text(exe, log), exe, places.0),
        stands_at(plist_text(exe, log), log, places.1),
        stands_at(plist_text(exe, log), log, places.2),
        places.0 + exe.len() < places.1,
        places.1 + log.len() < places.2,
        has(service_unit(exe), exe + " _listen\n"@),
        has(shim_text(exe), "\"\"\""@ + exe + "\"\" _listen\""@),
        has(task_script_text(exe), "\""@ + exe + "\""@),
{
    let a =
        "<?xml version=\"1.0\" encoding=\"UTF-8\"?>\n<!DOCTYPE plist PUBLIC \"-//Apple//DTD PLIST 1.0//EN\" \"http://www.apple.com/DTDs/PropertyList-1.0.dtd\">\n<plist version=\"1.0\">\n  <dict>\n    <key>Label</key><string>"@
        + LAUNCH_AGENT_LABEL@
        + "</string>\n    <key>ProgramArguments</key>\n    <array>\n      <string>"@;
    let b =
        "</string>\n      <string>_listen</string>\n    </array>\n    <key>RunAtLoad</key><true/>\n    <key>KeepAlive</key><true/>\n    <key>ThrottleInterval</key><integer>10</integer>\n    <key>StandardOutPath</key><string>"@;
    let c = "</string>\n    <key>StandardErrorPath</key><string>"@;
    let d = "</string>\n  </dict>\n</plist>\n"@;
    reveal_strlit(
        "</string>\n      <string>_listen</string>\n    </array>\n    <key>RunAtLoad</key><true/>\n    <key>KeepAlive</key><true/>\n    <key>ThrottleInterval</key><integer>10</integer>\n    <key>StandardOutPath</key><string>",
    );
    reveal_strlit("</string>\n    <key>StandardErrorPath</key><string>");
    assert(b.len() > 0 && c.len() > 0);
    let places = three_places(a, exe, b, log, c, log, d);
    the_service_runs_it(exe);
    places
}

proof fn three_places(
    a: Seq<char>,
    x: Seq<char>,
    b: Seq<char>,
    y: Seq<char>,
    c: Seq<char>,
    z: Seq<char>,
    d: Seq<char>,
) -> (places: (int, int, int))
    requires
        b.len() > 0,
        c.len() > 0,
    ensures
        stands_at(a + x + b + y + c + z + d, x, places.0),
        stands_at(a + x + b + y + c + z + d, y, places.1),
        stands_at(a + x + b + y + c + z + d, z, places.2),
        places.0 + x.len() < places.1,
        places.1 + y.len() < places.2,
{
    let s = a + x + b + y + c + z + d;
    let i = a.len() as int;
    let j = i + x.len() + b.len();
    let k = j + y.len() + c.len();
    assert(s.subrange(i, i + x.len()) =~= x);
    assert(s.subrange(j, j + y.len()) =~= y);
    assert(s.subrange(k, k + z.len()) =~= z);
    (i, j, k)
}

#[verifier::spinoff_prover]
proof fn the_service_runs_it(exe: Seq<char>)
    ensures
        has(service_unit(exe), exe + " _listen\n"@),
        has(shim_text(exe), "\"\"\""@ + exe + "\"\" _listen\""@),
        has(task_script_text(exe), "\""@ + exe + "\""@),
{
    let unit = "[Unit]\nDescription=Wisper background listener\nAfter=default.target\n\n[Service]\nExecStart="@;
    let rest = " _listen\nRestart=always\nRestartSec=3\n\n[Install]\nWantedBy=default.target\n"@;
    reveal_strlit(" _listen\n");
    reveal_strlit(" _listen\nRestart=always\nRestartSec=3\n\n[Install]\nWantedBy=default.target\n");
    between_marks(unit, Seq::empty(), exe, " _listen\n"@, rest);
    let run = "Set WshShell = CreateObject(\"WScript.Shell\")\r\nWshShell.Run \"\"\""@;
    let quiet = "\"\" _listen\", 0, False\r\n"@;
    reveal_strlit("Set WshShell = CreateObject(\"WScript.Shell\")\r\nWshShell.Run \"\"\"");
    reveal_strlit("\"\"\"");
    reveal_strlit("\"\" _listen\", 0, False\r\n");
    reveal_strlit("\"\" _listen\"");
    between_marks(run, "\"\"\""@, exe, "\"\" _listen\""@, quiet);
    let task = "$A = New-ScheduledTaskAction -Execute 'wscript.exe' -Argument '//B \""@;
    let more =
        "\"'; $T = New-ScheduledTaskTrigger -AtLogOn; $S = New-ScheduledTaskSettingsSet -Hidden -AllowStartIfOnBatteries -DontStopIfGoingOnBatteries; Register-ScheduledTask -TaskName '"@;
    reveal_strlit("$A = New-ScheduledTaskAction -Execute 'wscript.exe' -Argument '//B \"");
    reveal_strlit(
        "\"'; $T = New-ScheduledTaskTrigger -AtLogOn; $S = New-ScheduledTaskSettingsSet -Hidden -AllowStartIfOnBatteries -DontStopIfGoingOnBatteries; Register-ScheduledTask -TaskName '",
    );
    reveal_strlit("\"");
    between_marks(task, "\""@, exe, "\""@, more);
    let quoted = "\""@ + exe + "\""@;
    stays_in_front(task + exe + more, TASK_NAME@, quoted);
    stays_in_front(
        task + exe + more + TASK_NAME@,
        "' -Action $A -Trigger $T -Settings $S -Force | Out-Null"@,
        quoted,
    );
    assert(Seq::<char>::empty() + exe =~= exe);
}

proof fn between_marks(
    before: Seq<char>,
    open: Seq<char>,
    text: Seq<char>,
    close: Seq<char>,
    after: Seq<char>,
)
    requires
        open.is_suffix_of(before),
        close.is_prefix_of(after),
    ensures
        has(before + text + after, open + text + close),
{
    let lead = before.take(before.len() - open.len());
    let rest = after.skip(close.len() as int);
    let shown = open + text + close;
    assert(before =~= lead + open);
    assert(after =~= close + rest);
    assert(before + text + after =~= lead + shown + rest);
    stands_inside(lead, shown, rest);
}

/// Autostart is reported as on exactly where an entry is there, and then with its place on systems
/// that keep it in a file.
#[verifier::spinoff_prover]
pub proof fn the_status_says_what_is_there(
    target_os: Seq<char>,
    file: Seq<char>,
    present: bool,
    task: bool,
)
    ensures
        target_os != "windows"@ && present ==> file.is_suffix_of(
            status_text(target_os, file, present, task),
        ),
        "Autostart enabled"@.is_prefix_of(status_text(target_os, file, present, task)) <==> present
            || task && target_os == "windows"@,
        "Autostart disabled"@.is_prefix_of(status_text(target_os, file, present, task)) <==> !(
        present || task && target_os == "windows"@),
{
    reveal_strlit("Autostart enabled");
    reveal_strlit("Autostart disabled");
    reveal_strlit("Autostart enabled: logon task registered.");
    reveal_strlit("Autostart enabled: Startup folder entry present.");
    reveal_strlit("Autostart disabled: no logon task or Startup entry.");
    reveal_strlit("Autostart enabled: ");
    reveal_strlit("Autostart disabled: no LaunchAgent found.");
    reveal_strlit("Autostart disabled: no systemd user service found.");
    let text = status_text(target_os, file, present, task);
    if present || task && target_os == "windows"@ {
        assert(text.subrange(0, 17) =~= "Autostart enabled"@);
        assert(text[10] == 'e');
        if "Autostart disabled"@.is_prefix_of(text) {
            assert(text.subrange(0, 18)[10] == 'd');
        }
    } else {
        assert(text.subrange(0, 18) =~= "Autostart disabled"@);
        assert(text[10] == 'd');
        if "Autostart enabled"@.is_prefix_of(text) {
            assert(text.subrange(0, 17)[10] == 'e');
        }
    }
    if target_os != "windows"@ && present {
        assert(text.subrange(text.len() - file.len(), text.len() as int) =~= file);
    }
}

} // verus!
