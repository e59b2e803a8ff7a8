//! The command line: which command the arguments ask for, whether a
//! notification is suppressed, and what `status` prints.

use vstd::prelude::*;

use crate::config::Config;
use crate::install::{InstallationStatus, Paths};
use crate::payload::{is_subagent_payload, NotifyPayload};
use crate::text::chars_of;

verus! {

/// What the program is asked to do.
pub enum Command {
    /// Print the usage text.
    Help,
    /// Print the version.
    Version,
    /// Run the terminal interface.
    Ui,
    /// Install or update, and configure Codex.
    Install,
    /// Print the installation status.
    Status,
    /// Remove this tool's Codex configuration.
    Uninstall,
    /// Handle a Codex hook: the payload from the arguments or stdin, sent
    /// whatever the sub-agent switch says.
    Hook(Vec<String>),
    /// Handle a notification payload from the arguments or stdin; sub-agent
    /// notifications are dropped when the switch says so.
    Notify(Vec<String>),
    /// An option that is not known.
    UnknownOption(String),
}

/// The arguments after the first.
pub open spec fn rest(args: Seq<String>) -> Seq<String> {
    args.subrange(1, args.len() as int)
}

/// The command for the arguments (without the program name); `interactive`
/// says whether stdin and stdout are both terminals.
pub open spec fn command_of(args: Seq<String>, interactive: bool, c: Command) -> bool {
    let first = if args.len() > 0 {
        args[0]@
    } else {
        Seq::empty()
    };
    if args.len() > 0 && (first == "-h"@ || first == "--help"@) {
        c is Help
    } else if args.len() > 0 && (first == "-V"@ || first == "--version"@) {
        c is Version
    } else if args.len() > 0 && first == "ui"@ {
        c is Ui
    } else if args.len() > 0 && (first == "install"@ || first == "apply"@) {
        c is Install
    } else if args.len() > 0 && first == "status"@ {
        c is Status
    } else if args.len() > 0 && (first == "uninstall"@ || first == "remove"@) {
        c is Uninstall
    } else if args.len() > 0 && first == "hook"@ {
        c matches Command::Hook(a) && a@ == rest(args)
    } else if args.len() > 0 && first == "notify"@ {
        c matches Command::Notify(a) && a@ == rest(args)
    } else if args.len() == 0 && interactive {
        c is Ui
    } else if args.len() > 0 && first.len() > 0 && first[0] == '-' {
        c matches Command::UnknownOption(o) && o@ == first
    } else {
        c matches Command::Notify(a) && a@ == args
    }
}

fn is_one_of(arg: &str, a: &str, b: &str) -> (res: bool)
    ensures
        res == (arg@ == a@ || arg@ == b@),
{
    crate::json::str_eq(arg, a) || crate::json::str_eq(arg, b)
}

fn rest_of(args: &Vec<String>) -> (res: Vec<String>)
    requires
        args@.len() > 0,
    ensures
        res@ == rest(args@),
{
    let mut out: Vec<String> = Vec::new();
    let mut i: usize = 1;
    while i < args.len()
        invariant
            1 <= i <= args@.len(),
            out@ == args@.subrange(1, i as int),
        decreases args@.len() - i,
    {
        out.push(args[i].clone());
        proof {
            assert(out@ =~= args@.subrange(1, i + 1));
        }
        i = i + 1;
    }
    out
}

/// The command for the arguments (without the program name).
pub fn command_for(args: Vec<String>, interactive: bool) -> (c: Command)
    ensures
        command_of(args@, interactive, c),
{
    if args.len() == 0 {
        if interactive {
            return Command::Ui;
        }
        return Command::Notify(args);
    }
    let first = args[0].as_str();
    if is_one_of(first, "-h", "--help") {
        Command::Help
    } else if is_one_of(first, "-V", "--version") {
        Command::Version
    } else if crate::json::str_eq(first, "ui") {
        Command::Ui
    } else if is_one_of(first, "install", "apply") {
        Command::Install
    } else if crate::json::str_eq(first, "status") {
        Command::Status
    } else if is_one_of(first, "uninstall", "remove") {
        Command::Uninstall
    } else if crate::json::str_eq(first, "hook") {
        Command::Hook(rest_of(&args))
    } else if crate::json::str_eq(first, "notify") {
        Command::Notify(rest_of(&args))
    } else {
        let c = chars_of(first);
        if c.len() > 0 && c[0] == '-' {
            Command::UnknownOption(args[0].clone())
        } else {
            Command::Notify(args)
        }
    }
}

/// Whether a notification is dropped: a sub-agent's, when the caller filters
/// them and the configuration says to ignore them.
pub fn notification_suppressed(filter_subagents: bool, config: &Config, payload: &NotifyPayload) -> (res: bool)
    ensures
        res == (filter_subagents && config.ignore_subagent_notifications && is_subagent_payload(*payload)),
{
    filter_subagents && config.ignore_subagent_notifications && payload.is_subagent()
}

/// The lines `status` prints.
pub open spec fn status_text(status: InstallationStatus, paths: Paths) -> Seq<Seq<char>> {
    seq![
        "EXE："@ + if status.binary_current {
            "已安装且与当前版本同步"@
        } else if status.binary_installed {
            "已安装但需要更新"@
        } else {
            "未安装"@
        },
        "Codex Stop Hook："@ + if status.hook_configured {
            "已配置"@
        } else {
            "未配置"@
        },
        "Codex SubagentStop Hook："@ + if status.subagent_hook_configured {
            "已配置（通知全部代理）"@
        } else {
            "未配置（仅通知主代理）"@
        },
    ] + (if status.legacy_notify_configured {
        seq!["旧 notify：仍存在，请重新运行 install 完成迁移"@]
    } else {
        Seq::empty()
    }) + seq!["路径："@ + paths.installed_binary@, "Hooks："@ + paths.hooks@]
}

fn joined(head: &str, tail: &str) -> (res: String)
    ensures
        res@ == head@ + tail@,
{
    let mut c = chars_of(head);
    let t = chars_of(tail);
    crate::text::extend_chars(&mut c, t.as_slice());
    crate::text::string_of(c.as_slice())
}

/// The lines `status` prints.
pub fn status_lines(status: &InstallationStatus, paths: &Paths) -> (res: Vec<String>)
    ensures
        res@.len() == status_text(*status, *paths).len(),
        forall|i: int| 0 <= i < res@.len() ==> #[trigger] res@[i]@ == status_text(*status, *paths)[i],
{
    let mut out: Vec<String> = Vec::new();
    let binary = if status.binary_current {
        "已安装且与当前版本同步"
    } else if status.binary_installed {
        "已安装但需要更新"
    } else {
        "未安装"
    };
    out.push(joined("EXE：", binary));
    let stop = if status.hook_configured {
        "已配置"
    } else {
        "未配置"
    };
    out.push(joined("Codex Stop Hook：", stop));
    let subagent = if status.subagent_hook_configured {
        "已配置（通知全部代理）"
    } else {
        "未配置（仅通知主代理）"
    };
    out.push(joined("Codex SubagentStop Hook：", subagent));
    if status.legacy_notify_configured {
        out.push(String::from_str("旧 notify：仍存在，请重新运行 install 完成迁移"));
    }
    out.push(joined("路径：", paths.installed_binary.as_str()));
    out.push(joined("Hooks：", paths.hooks.as_str()));
    let ghost expected = status_text(*status, *paths);
    assert(out@.len() == expected.len());
    assert forall|i: int| 0 <= i < out@.len() implies #[trigger] out@[i]@ == expected[i] by {
        if status.legacy_notify_configured {
            assert(expected[3] == "旧 notify：仍存在，请重新运行 install 完成迁移"@);
        }
    }
    out
}

} // verus!

verus! {

/// The first argument names the command: `-h`/`--help`, `-V`/`--version`,
/// `ui`, `install`/`apply`, `status`, `uninstall`/`remove`, and `hook` and
/// `notify` with the arguments after them; without arguments an interactive
/// terminal gets the interface, and an unknown word starting with `-` is
/// refused.
pub proof fn lemma_command_words(args: Seq<String>, interactive: bool, c: Command)
    requires
        command_of(args, interactive, c),
    ensures
        args.len() > 0 && (args[0]@ == "-h"@ || args[0]@ == "--help"@) ==> c is Help,
        args.len() > 0 && (args[0]@ == "-V"@ || args[0]@ == "--version"@) ==> c is Version,
        args.len() > 0 && args[0]@ == "ui"@ ==> c is Ui,
        args.len() > 0 && (args[0]@ == "install"@ || args[0]@ == "apply"@) ==> c is Install,
        args.len() > 0 && args[0]@ == "status"@ ==> c is Status,
        args.len() > 0 && (args[0]@ == "uninstall"@ || args[0]@ == "remove"@) ==> c is Uninstall,
        args.len() > 0 && args[0]@ == "hook"@ ==> (c matches Command::Hook(a) && a@ == rest(args)),
        args.len() > 0 && args[0]@ == "notify"@ ==> (c matches Command::Notify(a) && a@ == rest(args)),
        args.len() == 0 && interactive ==> c is Ui,
        args.len() == 0 && !interactive ==> (c matches Command::Notify(a) && a@.len() == 0),
{
    reveal_strlit("-h");
    reveal_strlit("--help");
    reveal_strlit("-V");
    reveal_strlit("--version");
    reveal_strlit("ui");
    reveal_strlit("install");
    reveal_strlit("apply");
    reveal_strlit("status");
    reveal_strlit("uninstall");
    reveal_strlit("remove");
    reveal_strlit("hook");
    reveal_strlit("notify");
    if args.len() > 0 {
        let f = args[0]@;
        if f.len() > 0 {
            assert(f[0] == args[0]@[0]);
        }
        assert(f == "-h"@ ==> f[1] == 'h');
        assert(f == "-V"@ ==> f[1] == 'V');
        assert(f == "ui"@ ==> f[0] == 'u');
        assert(f == "status"@ ==> f[0] == 's');
        assert(f == "remove"@ ==> f[0] == 'r');
        assert(f == "notify"@ ==> f[0] == 'n');
        assert(f == "--help"@ ==> f[0] == '-');
    }
}

} // verus!
