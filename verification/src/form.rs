//! The terminal interface's state: the main menu, the channel form, and what
//! each key does to them. Drawing, reading keys and the work a menu entry
//! starts belong to the caller, which reports the outcome back.

use vstd::prelude::*;

use crate::config::Config;
use crate::text::{chars_of, extend_chars, string_of, trim_str, trimmed};

verus! {

/// The menu's entries: install, uninstall, the channel form, quit.
pub const ACTION_COUNT: usize = 4;

/// The form's fields: four text fields and the sub-agent switch.
pub const FIELD_COUNT: usize = 5;

/// `n` bullets.
pub open spec fn bullets(n: nat) -> Seq<char> {
    Seq::new(n, |i: int| '•')
}

/// A secret shown as one bullet per character.
pub fn mask(s: &str) -> (res: String)
    ensures
        res@ == bullets(s@.len()),
{
    let c = chars_of(s);
    let mut out: Vec<char> = Vec::new();
    let mut i: usize = 0;
    while i < c.len()
        invariant
            i <= c@.len(),
            out@ == bullets(i as nat),
        decreases c@.len() - i,
    {
        out.push('•');
        i = i + 1;
        assert(out@ =~= bullets(i as nat));
    }
    string_of(out.as_slice())
}

/// The channel form: the configuration it was opened with, the field with
/// the focus, the four text fields (Telegram bot token, Telegram chat id,
/// Bark server URL, Hermes webhook URL), the sub-agent switch, whether the
/// focused field is being edited, and the message shown under it.
pub struct ConfigForm {
    pub config: Config,
    pub focus: usize,
    pub values: Vec<String>,
    pub ignore_subagent_notifications: bool,
    pub editing: bool,
    pub message: String,
}

impl ConfigForm {
    /// Four text fields, the focus on one of the five fields, and only a
    /// text field edited.
    pub open spec fn well_formed(&self) -> bool {
        &&& self.values@.len() == 4
        &&& self.focus < FIELD_COUNT
        &&& self.editing ==> self.focus < 4
    }

    /// The text fields show these values of the configuration.
    pub open spec fn shows(&self, c: Config) -> bool {
        &&& self.values@.len() == 4
        &&& self.values@[0]@ == c.bot_token@
        &&& self.values@[1]@ == c.chat_id@
        &&& self.values@[2]@ == c.bark_server_url@
        &&& self.values@[3]@ == c.hermes_webhook_url@
    }

    /// A form on `config`, with the focus on the first field.
    pub fn from_config(config: Config) -> (form: ConfigForm)
        ensures
            form.well_formed(),
            form.shows(config),
            form.config == config,
            form.focus == 0,
            !form.editing,
            form.ignore_subagent_notifications == config.ignore_subagent_notifications,
            form.message@ == "选择字段后按 Enter 编辑；空字段不会启用对应渠道。"@,
    {
        let mut values: Vec<String> = Vec::new();
        values.push(config.bot_token.clone());
        values.push(config.chat_id.clone());
        values.push(config.bark_server_url.clone());
        values.push(config.hermes_webhook_url.clone());
        ConfigForm {
            ignore_subagent_notifications: config.ignore_subagent_notifications,
            config,
            focus: 0,
            values,
            editing: false,
            message: String::from_str("选择字段后按 Enter 编辑；空字段不会启用对应渠道。"),
        }
    }

    /// The configuration to save: the one the form was opened with, with the
    /// four text fields trimmed and the switch as set; the fields the form
    /// does not show are kept.
    pub fn config_to_save(&self) -> (c: Config)
        requires
            self.well_formed(),
        ensures
            c.bot_token@ == trimmed(self.values@[0]@),
            c.chat_id@ == trimmed(self.values@[1]@),
            c.bark_server_url@ == trimmed(self.values@[2]@),
            c.hermes_webhook_url@ == trimmed(self.values@[3]@),
            c.openilink_hub_url@ == self.config.openilink_hub_url@,
            c.openilink_hub_token@ == self.config.openilink_hub_token@,
            c.hermes_webhook_secret@ == self.config.hermes_webhook_secret@,
            c.ignore_subagent_notifications == self.ignore_subagent_notifications,
    {
        let mut c = self.config.clone();
        c.bot_token = trim_str(self.values[0].as_str());
        c.chat_id = trim_str(self.values[1].as_str());
        c.bark_server_url = trim_str(self.values[2].as_str());
        c.hermes_webhook_url = trim_str(self.values[3].as_str());
        c.ignore_subagent_notifications = self.ignore_subagent_notifications;
        c
    }

    /// After `config` was saved (to `path`, when it is known): the form shows
    /// it and leaves editing.
    pub fn saved(&mut self, config: Config, path: Option<String>)
        requires
            old(self).well_formed(),
        ensures
            final(self).well_formed(),
            final(self).shows(config),
            final(self).config == config,
            final(self).focus == old(self).focus,
            !final(self).editing,
            final(self).ignore_subagent_notifications == config.ignore_subagent_notifications,
            final(self).message@ == match path {
                Some(p) => "配置已保存："@ + p@,
                None => "配置已保存。"@,
            },
    {
        let mut values: Vec<String> = Vec::new();
        values.push(config.bot_token.clone());
        values.push(config.chat_id.clone());
        values.push(config.bark_server_url.clone());
        values.push(config.hermes_webhook_url.clone());
        self.values = values;
        self.editing = false;
        self.ignore_subagent_notifications = config.ignore_subagent_notifications;
        self.config = config;
        self.message = match path {
            Some(p) => prefixed("配置已保存：", p.as_str()),
            None => String::from_str("配置已保存。"),
        };
    }

    /// After saving failed with `error`.
    pub fn save_failed(&mut self, error: &str)
        ensures
            final(self).message@ == "保存失败："@ + error@,
            final(self).config == old(self).config,
            final(self).values == old(self).values,
            final(self).focus == old(self).focus,
            final(self).editing == old(self).editing,
            final(self).ignore_subagent_notifications == old(self).ignore_subagent_notifications,
    {
        self.message = prefixed("保存失败：", error);
    }

    /// The focused text field with `edit` applied to its characters.
    fn edit_focused(&mut self, text: &[char], op: Edit)
        requires
            old(self).well_formed(),
            old(self).focus < 4,
        ensures
            final(self).well_formed(),
            final(self).values@ == old(self).values@.update(
                old(self).focus as int,
                final(self).values@[old(self).focus as int],
            ),
            final(self).values@[old(self).focus as int]@ == edited(
                old(self).values@[old(self).focus as int]@,
                text@,
                op,
            ),
            final(self).config == old(self).config,
            final(self).focus == old(self).focus,
            final(self).editing == old(self).editing,
            final(self).ignore_subagent_notifications == old(self).ignore_subagent_notifications,
            final(self).message == old(self).message,
    {
        let i = self.focus;
        let mut c = chars_of(self.values[i].as_str());
        match op {
            Edit::Append => {
                extend_chars(&mut c, text);
            },
            Edit::DropLast => {
                if c.len() > 0 {
                    c.pop();
                }
            },
            Edit::Clear => {
                c = Vec::new();
            },
        }
        let v = string_of(c.as_slice());
        self.values.set(i, v);
    }
}

/// How a key changes the focused text field.
pub enum Edit {
    /// Text is added at the end.
    Append,
    /// The last character goes.
    DropLast,
    /// The field is emptied.
    Clear,
}

/// A text field after an edit.
pub open spec fn edited(value: Seq<char>, text: Seq<char>, op: Edit) -> Seq<char> {
    match op {
        Edit::Append => value + text,
        Edit::DropLast => if value.len() > 0 {
            value.drop_last()
        } else {
            value
        },
        Edit::Clear => Seq::empty(),
    }
}

/// `head` followed by `tail`.
fn prefixed(head: &str, tail: &str) -> (res: String)
    ensures
        res@ == head@ + tail@,
{
    let mut c = chars_of(head);
    let t = chars_of(tail);
    extend_chars(&mut c, t.as_slice());
    string_of(c.as_slice())
}

/// A key as the interface sees it.
pub enum KeyCode {
    Char(char),
    Up,
    Down,
    Enter,
    Esc,
    Backspace,
    Delete,
    Tab,
    BackTab,
    Other,
}

/// A key press: the key and whether Control or Alt was held.
pub struct Key {
    pub code: KeyCode,
    pub control: bool,
    pub alt: bool,
}

/// What the interface shows: the main menu (the selected entry and the
/// message under it) or the channel form.
pub enum Screen {
    Menu { selected: usize, message: String },
    Config(ConfigForm),
}

/// The work a key asks the caller to do.
pub enum Action {
    /// Nothing beyond the change of state.
    Nothing,
    /// Leave the interface.
    Quit,
    /// Install or update, and configure Codex.
    Install,
    /// Remove this tool's Codex configuration.
    Uninstall,
    /// Open the channel form on the configuration file.
    OpenConfig,
    /// Save the form's configuration.
    Save,
}

impl Screen {
    /// The menu's selection is one of its entries; the form is well formed.
    pub open spec fn well_formed(&self) -> bool {
        match self {
            Screen::Menu { selected, .. } => *selected < ACTION_COUNT,
            Screen::Config(form) => form.well_formed(),
        }
    }
}

/// The key is the character `c`.
pub open spec fn is_char(code: KeyCode, c: char) -> bool {
    match code {
        KeyCode::Char(x) => x == c,
        _ => false,
    }
}

/// The key moves up: Up or `k` (and Shift-Tab in the form).
pub open spec fn moves_up(code: KeyCode, in_form: bool) -> bool {
    code is Up || is_char(code, 'k') || (in_form && code is BackTab)
}

/// The key moves down: Down or `j` (and Tab in the form).
pub open spec fn moves_down(code: KeyCode, in_form: bool) -> bool {
    code is Down || is_char(code, 'j') || (in_form && code is Tab)
}

/// The work that Enter on a menu entry starts.
pub open spec fn menu_entry_action(selected: usize) -> Action {
    if selected == 0 {
        Action::Install
    } else if selected == 1 {
        Action::Uninstall
    } else if selected == 2 {
        Action::OpenConfig
    } else {
        Action::Quit
    }
}

/// The menu after a key, and the work it starts.
pub open spec fn menu_key(selected: usize, message: Seq<char>, key: Key, after: Screen, action: Action) -> bool {
    let unchanged = after matches Screen::Menu { selected: s, message: m } && s == selected && m@ == message;
    if is_char(key.code, 'q') || key.code is Esc {
        unchanged && action == Action::Quit
    } else if moves_up(key.code, false) {
        after matches Screen::Menu { selected: s, message: m } && s == (if selected > 0 {
            selected - 1
        } else {
            0
        }) && m@ == message && action == Action::Nothing
    } else if moves_down(key.code, false) {
        after matches Screen::Menu { selected: s, message: m } && s == (if selected + 1 < ACTION_COUNT {
            selected + 1
        } else {
            (ACTION_COUNT - 1) as int
        }) && m@ == message && action == Action::Nothing
    } else if key.code is Enter {
        unchanged && action == menu_entry_action(selected)
    } else {
        unchanged && action == Action::Nothing
    }
}

/// The form after a key, and the work it starts.
pub open spec fn form_key(form: ConfigForm, key: Key, after: Screen, action: Action) -> bool {
    let same = after == Screen::Config(form);
    let to_menu = |m: Seq<char>| after matches Screen::Menu { selected: s, message: msg } && s == 2 && msg@ == m;
    let only = |f: ConfigForm|
        after matches Screen::Config(g) && g.config == form.config && g.focus == f.focus && g.values == f.values
            && g.ignore_subagent_notifications == f.ignore_subagent_notifications && g.editing == f.editing
            && g.message == form.message;
    let text_edit = |text: Seq<char>, op: Edit|
        after matches Screen::Config(g) && g.config == form.config && g.focus == form.focus && g.values@.len() == 4
            && (forall|i: int| 0 <= i < 4 && i != form.focus ==> g.values@[i] == form.values@[i])
            && g.values@[form.focus as int]@ == edited(form.values@[form.focus as int]@, text, op)
            && g.ignore_subagent_notifications == form.ignore_subagent_notifications && g.editing
            && g.message == form.message;
    if key.control && is_char(key.code, 's') {
        same && action == Action::Save
    } else if form.editing {
        &&& action == Action::Nothing
        &&& if key.code is Enter {
            only(ConfigForm { editing: false, ..form })
        } else if key.code is Esc {
            to_menu("已取消通知配置修改，文件未保存。"@)
        } else if key.code is Backspace {
            text_edit(Seq::empty(), Edit::DropLast)
        } else if key.code is Delete || (key.control && is_char(key.code, 'u')) {
            text_edit(Seq::empty(), Edit::Clear)
        } else if key.code is Char && !key.control && !key.alt {
            text_edit(seq![key.code->Char_0], Edit::Append)
        } else {
            same
        }
    } else if key.code is Esc || is_char(key.code, 'q') {
        to_menu("已返回主菜单。"@) && action == Action::Nothing
    } else if moves_up(key.code, true) {
        only(ConfigForm { focus: if form.focus > 0 { (form.focus - 1) as usize } else { 0 }, ..form })
            && action == Action::Nothing
    } else if moves_down(key.code, true) {
        only(ConfigForm { focus: if form.focus + 1 < FIELD_COUNT { (form.focus + 1) as usize } else { 4 }, ..form })
            && action == Action::Nothing
    } else if (key.code is Enter || is_char(key.code, ' ')) && form.focus == 4 {
        only(ConfigForm { ignore_subagent_notifications: !form.ignore_subagent_notifications, ..form })
            && action == Action::Nothing
    } else if key.code is Enter {
        only(ConfigForm { editing: true, ..form }) && action == Action::Nothing
    } else if is_char(key.code, 's') {
        same && action == Action::Save
    } else {
        same && action == Action::Nothing
    }
}

fn is_char_key(code: &KeyCode, c: char) -> (res: bool)
    ensures
        res == is_char(*code, c),
{
    match code {
        KeyCode::Char(x) => *x == c,
        _ => false,
    }
}

/// The menu after a key, and the work the key starts.
fn menu_handle(selected: usize, message: String, key: Key) -> (res: (Screen, Action))
    requires
        selected < ACTION_COUNT,
    ensures
        res.0.well_formed(),
        menu_key(selected, message@, key, res.0, res.1),
{
    let code = key.code;
    if is_char_key(&code, 'q') || matches!(code, KeyCode::Esc) {
        (Screen::Menu { selected, message }, Action::Quit)
    } else if matches!(code, KeyCode::Up) || is_char_key(&code, 'k') {
        let s = if selected > 0 {
            selected - 1
        } else {
            0
        };
        (Screen::Menu { selected: s, message }, Action::Nothing)
    } else if matches!(code, KeyCode::Down) || is_char_key(&code, 'j') {
        let s = if selected + 1 < ACTION_COUNT {
            selected + 1
        } else {
            ACTION_COUNT - 1
        };
        (Screen::Menu { selected: s, message }, Action::Nothing)
    } else if matches!(code, KeyCode::Enter) {
        let action = if selected == 0 {
            Action::Install
        } else if selected == 1 {
            Action::Uninstall
        } else if selected == 2 {
            Action::OpenConfig
        } else {
            Action::Quit
        };
        (Screen::Menu { selected, message }, action)
    } else {
        (Screen::Menu { selected, message }, Action::Nothing)
    }
}

/// The form after a key, and the work the key starts.
fn form_handle(form: ConfigForm, key: Key) -> (res: (Screen, Action))
    requires
        form.well_formed(),
    ensures
        res.0.well_formed(),
        form_key(form, key, res.0, res.1),
{
    let mut form = form;
    let ghost before = form;
    let code = key.code;
    if key.control && is_char_key(&code, 's') {
        return (Screen::Config(form), Action::Save);
    }
    if form.editing {
        if matches!(code, KeyCode::Enter) {
            form.editing = false;
        } else if matches!(code, KeyCode::Esc) {
            return (
                Screen::Menu { selected: 2, message: String::from_str("已取消通知配置修改，文件未保存。") },
                Action::Nothing,
            );
        } else if matches!(code, KeyCode::Backspace) {
            form.edit_focused(&[], Edit::DropLast);
        } else if matches!(code, KeyCode::Delete) || (key.control && is_char_key(&code, 'u')) {
            form.edit_focused(&[], Edit::Clear);
        } else if !key.control && !key.alt {
            match code {
                KeyCode::Char(c) => {
                    let text = [c];
                    form.edit_focused(&text, Edit::Append);
                    assert(text@ == seq![c]);
                },
                _ => {},
            }
        }
        return (Screen::Config(form), Action::Nothing);
    }
    if matches!(code, KeyCode::Esc) || is_char_key(&code, 'q') {
        return (Screen::Menu { selected: 2, message: String::from_str("已返回主菜单。") }, Action::Nothing);
    }
    if matches!(code, KeyCode::Up) || matches!(code, KeyCode::BackTab) || is_char_key(&code, 'k') {
        form.focus = if form.focus > 0 {
            form.focus - 1
        } else {
            0
        };
    } else if matches!(code, KeyCode::Down) || matches!(code, KeyCode::Tab) || is_char_key(&code, 'j') {
        form.focus = if form.focus + 1 < FIELD_COUNT {
            form.focus + 1
        } else {
            FIELD_COUNT - 1
        };
    } else if (matches!(code, KeyCode::Enter) || is_char_key(&code, ' ')) && form.focus == 4 {
        form.ignore_subagent_notifications = !form.ignore_subagent_notifications;
    } else if matches!(code, KeyCode::Enter) {
        form.editing = true;
    } else if is_char_key(&code, 's') {
        return (Screen::Config(form), Action::Save);
    }
    (Screen::Config(form), Action::Nothing)
}

/// The interface after a key, and the work the key asks of the caller.
pub fn handle_key(screen: Screen, key: Key) -> (res: (Screen, Action))
    requires
        screen.well_formed(),
    ensures
        res.0.well_formed(),
        match screen {
            Screen::Menu { selected, message } => menu_key(selected, message@, key, res.0, res.1),
            Screen::Config(form) => form_key(form, key, res.0, res.1),
        },
{
    match screen {
        Screen::Menu { selected, message } => menu_handle(selected, message, key),
        Screen::Config(form) => form_handle(form, key),
    }
}

/// The interface after pasted text: it goes into a field being edited.
pub fn paste(screen: Screen, text: &str) -> (res: Screen)
    requires
        screen.well_formed(),
    ensures
        res.well_formed(),
        match screen {
            Screen::Config(form) => if form.editing {
                res matches Screen::Config(g) && g.focus == form.focus && g.values@.len() == 4
                    && g.values@[form.focus as int]@ == form.values@[form.focus as int]@ + text@
                    && (forall|i: int| 0 <= i < 4 && i != form.focus ==> g.values@[i] == form.values@[i])
            } else {
                res == screen
            },
            _ => res == screen,
        },
{
    match screen {
        Screen::Config(form) => {
            let mut form = form;
            if form.editing {
                let t = chars_of(text);
                form.edit_focused(t.as_slice(), Edit::Append);
            }
            Screen::Config(form)
        },
        other => other,
    }
}

/// The menu with `message` under it (another screen is left as it is).
pub open spec fn with_message(screen: Screen, after: Screen, message: Seq<char>) -> bool {
    match screen {
        Screen::Menu { selected, .. } => after matches Screen::Menu { selected: s, message: m } && s == selected
            && m@ == message,
        _ => after == screen,
    }
}

fn set_message(screen: Screen, message: String) -> (res: Screen)
    ensures
        with_message(screen, res, message@),
        screen.well_formed() ==> res.well_formed(),
{
    match screen {
        Screen::Menu { selected, .. } => Screen::Menu { selected, message },
        other => other,
    }
}

/// The menu after installing: the installed program's path, or the error.
pub fn installed(screen: Screen, outcome: Result<String, String>) -> (res: Screen)
    ensures
        screen.well_formed() ==> res.well_formed(),
        with_message(
            screen,
            res,
            match outcome {
                Ok(binary) => "配置完成。Codex notify 已指向："@ + binary@,
                Err(error) => "配置失败："@ + error@,
            },
        ),
{
    let message = match outcome {
        Ok(binary) => prefixed("配置完成。Codex notify 已指向：", binary.as_str()),
        Err(error) => prefixed("配置失败：", error.as_str()),
    };
    set_message(screen, message)
}

/// The menu after uninstalling: whether a file changed, or the error.
pub fn uninstalled(screen: Screen, outcome: Result<bool, String>) -> (res: Screen)
    ensures
        screen.well_formed() ==> res.well_formed(),
        with_message(
            screen,
            res,
            match outcome {
                Ok(true) => "已移除本工具写入的 Codex notify 配置。"@,
                Ok(false) => "当前 notify 不是本工具配置的，未做修改。"@,
                Err(error) => "移除失败："@ + error@,
            },
        ),
{
    let message = match outcome {
        Ok(true) => String::from_str("已移除本工具写入的 Codex notify 配置。"),
        Ok(false) => String::from_str("当前 notify 不是本工具配置的，未做修改。"),
        Err(error) => prefixed("移除失败：", error.as_str()),
    };
    set_message(screen, message)
}

/// The interface after reading the configuration file for the form: the
/// form on it, or the menu with the error.
pub fn config_opened(screen: Screen, outcome: Result<Config, String>) -> (res: Screen)
    ensures
        screen.well_formed() ==> res.well_formed(),
        match outcome {
            Ok(c) => res matches Screen::Config(form) && form.config == c && form.shows(c) && form.focus == 0
                && !form.editing,
            Err(error) => with_message(screen, res, "读取通知配置失败："@ + error@),
        },
{
    match outcome {
        Ok(c) => Screen::Config(ConfigForm::from_config(c)),
        Err(error) => set_message(screen, prefixed("读取通知配置失败：", error.as_str())),
    }
}

/// The label of a text field.
pub open spec fn field_label(index: int) -> Seq<char> {
    if index == 0 {
        "TELEGRAM_BOT_TOKEN"@
    } else if index == 1 {
        "TELEGRAM_CHAT_ID"@
    } else if index == 2 {
        "BARK_SERVER_URL"@
    } else {
        "HERMES_WEBHOOK_URL"@
    }
}

/// How the form shows a text field: its label, then its value (`<未设置>`
/// when empty, the bot token masked), then a mark while it is edited.
pub open spec fn field_line_text(form: ConfigForm, index: int) -> Seq<char> {
    let value = form.values@[index]@;
    field_label(index) + ": "@ + (if value.len() == 0 {
        "<未设置>"@
    } else if index == 0 {
        bullets(value.len())
    } else {
        value
    }) + (if index == form.focus && form.editing {
        "  [编辑中]"@
    } else {
        Seq::empty()
    })
}

/// How the form shows the sub-agent switch.
pub open spec fn switch_line_text(form: ConfigForm) -> Seq<char> {
    "忽略 SubAgent 通知: "@ + if form.ignore_subagent_notifications {
        "是（仅通知主代理）"@
    } else {
        "否（全部通知）"@
    }
}

impl ConfigForm {
    /// The line for text field `index`.
    pub fn field_line(&self, index: usize) -> (res: String)
        requires
            self.well_formed(),
            index < 4,
        ensures
            res@ == field_line_text(*self, index as int),
    {
        let label = if index == 0 {
            "TELEGRAM_BOT_TOKEN"
        } else if index == 1 {
            "TELEGRAM_CHAT_ID"
        } else if index == 2 {
            "BARK_SERVER_URL"
        } else {
            "HERMES_WEBHOOK_URL"
        };
        let value = self.values[index].as_str();
        let shown = if value.unicode_len() == 0 {
            String::from_str("<未设置>")
        } else if index == 0 {
            mask(value)
        } else {
            String::from_str(value)
        };
        let mut line = prefixed(label, ": ");
        line = prefixed(line.as_str(), shown.as_str());
        if index == self.focus && self.editing {
            line = prefixed(line.as_str(), "  [编辑中]");
        } else {
            assert(line@ + Seq::<char>::empty() == line@);
        }
        line
    }

    /// The line for the sub-agent switch.
    pub fn switch_line(&self) -> (res: String)
        ensures
            res@ == switch_line_text(*self),
    {
        if self.ignore_subagent_notifications {
            prefixed("忽略 SubAgent 通知: ", "是（仅通知主代理）")
        } else {
            prefixed("忽略 SubAgent 通知: ", "否（全部通知）")
        }
    }
}

} // verus!
