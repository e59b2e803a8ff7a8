# codex-notify

A multi-channel notifier for Codex sessions (Telegram, Bark, OpeniLink Hub,
Hermes webhooks), with an installer that wires it into Codex's hooks. The
library in `src/` is written in Verus: its functions carry contracts that
Verus proves, and the laws of the installer are proof functions.

- `src/payload.rs`: decoding hook and `notify` payloads, the visible message,
  headline and title, sub-agent detection, the user input from a transcript.
- `src/telegram_markdown.rs`: CommonMark (parsed by pulldown-cmark) rendered
  as Telegram MarkdownV2.
- `src/install.rs`: paths under the Codex home, hook commands, the lifecycle
  hooks in `hooks.json` (install, remove, status), uninstalling.
- `src/legacy_notify.rs`: the legacy `notify` entry in `config.toml`.
- `src/notify.rs`: the request for each configured channel, the Hermes
  signature, the failure report.
- `src/config.rs`, `src/form.rs`, `src/cli.rs`: the channel configuration,
  the terminal interface's state machine, the command line.
- `src/json.rs`, `src/text.rs`: the JSON model and character helpers.

`app/` is the program around it: files, environment, HTTP and the terminal.
