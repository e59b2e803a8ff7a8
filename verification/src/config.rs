//! Channel configuration: the values themselves and how the environment, the
//! JSON file and the form combine them.

use vstd::prelude::*;

use crate::text::{trim_str, trimmed};

verus! {

/// The notification channels and the sub-agent switch.
pub struct Config {
    pub bot_token: String,
    pub chat_id: String,
    pub openilink_hub_url: String,
    pub openilink_hub_token: String,
    pub hermes_webhook_url: String,
    pub hermes_webhook_secret: String,
    pub bark_server_url: String,
    pub ignore_subagent_notifications: bool,
}

/// No channel set, and sub-agent notifications on.
pub open spec fn is_unset(c: Config) -> bool {
    &&& c.bot_token@.len() == 0
    &&& c.chat_id@.len() == 0
    &&& c.openilink_hub_url@.len() == 0
    &&& c.openilink_hub_token@.len() == 0
    &&& c.hermes_webhook_url@.len() == 0
    &&& c.hermes_webhook_secret@.len() == 0
    &&& c.bark_server_url@.len() == 0
    &&& !c.ignore_subagent_notifications
}

impl Default for Config {
    fn default() -> (c: Config)
        ensures
            c.bot_token@.len() == 0,
            c.chat_id@.len() == 0,
            c.openilink_hub_url@.len() == 0,
            c.openilink_hub_token@.len() == 0,
            c.hermes_webhook_url@.len() == 0,
            c.hermes_webhook_secret@.len() == 0,
            c.bark_server_url@.len() == 0,
            !c.ignore_subagent_notifications,
    {
        Config {
            bot_token: String::new(),
            chat_id: String::new(),
            openilink_hub_url: String::new(),
            openilink_hub_token: String::new(),
            hermes_webhook_url: String::new(),
            hermes_webhook_secret: String::new(),
            bark_server_url: String::new(),
            ignore_subagent_notifications: false,
        }
    }
}

impl Clone for Config {
    fn clone(&self) -> (c: Config)
        ensures
            c.bot_token@ == self.bot_token@,
            c.chat_id@ == self.chat_id@,
            c.openilink_hub_url@ == self.openilink_hub_url@,
            c.openilink_hub_token@ == self.openilink_hub_token@,
            c.hermes_webhook_url@ == self.hermes_webhook_url@,
            c.hermes_webhook_secret@ == self.hermes_webhook_secret@,
            c.bark_server_url@ == self.bark_server_url@,
            c.ignore_subagent_notifications == self.ignore_subagent_notifications,
    {
        Config {
            bot_token: self.bot_token.clone(),
            chat_id: self.chat_id.clone(),
            openilink_hub_url: self.openilink_hub_url.clone(),
            openilink_hub_token: self.openilink_hub_token.clone(),
            hermes_webhook_url: self.hermes_webhook_url.clone(),
            hermes_webhook_secret: self.hermes_webhook_secret.clone(),
            bark_server_url: self.bark_server_url.clone(),
            ignore_subagent_notifications: self.ignore_subagent_notifications,
        }
    }
}

/// The value kept when `target` may be filled from `source`: `target` when it
/// is not empty, else `source` trimmed.
pub open spec fn filled(target: Seq<char>, source: Seq<char>) -> Seq<char> {
    if target.len() == 0 {
        trimmed(source)
    } else {
        target
    }
}

fn fill(target: &mut String, source: String)
    ensures
        final(target)@ == filled(old(target)@, source@),
{
    if target.as_str().unicode_len() == 0 {
        *target = trim_str(source.as_str());
    }
}

/// `c` has the fields of `a`, each filled from `b` where `a`'s is empty; the
/// switch is on when either has it on.
pub open spec fn filled_from(c: Config, a: Config, b: Config) -> bool {
    &&& c.bot_token@ == filled(a.bot_token@, b.bot_token@)
    &&& c.chat_id@ == filled(a.chat_id@, b.chat_id@)
    &&& c.openilink_hub_url@ == filled(a.openilink_hub_url@, b.openilink_hub_url@)
    &&& c.openilink_hub_token@ == filled(a.openilink_hub_token@, b.openilink_hub_token@)
    &&& c.hermes_webhook_url@ == filled(a.hermes_webhook_url@, b.hermes_webhook_url@)
    &&& c.hermes_webhook_secret@ == filled(a.hermes_webhook_secret@, b.hermes_webhook_secret@)
    &&& c.bark_server_url@ == filled(a.bark_server_url@, b.bark_server_url@)
    &&& c.ignore_subagent_notifications == (a.ignore_subagent_notifications
        || b.ignore_subagent_notifications)
}

/// Every text field of `c` is the trimmed text of the same field of `a`.
pub open spec fn trimmed_from(c: Config, a: Config) -> bool {
    &&& c.bot_token@ == trimmed(a.bot_token@)
    &&& c.chat_id@ == trimmed(a.chat_id@)
    &&& c.openilink_hub_url@ == trimmed(a.openilink_hub_url@)
    &&& c.openilink_hub_token@ == trimmed(a.openilink_hub_token@)
    &&& c.hermes_webhook_url@ == trimmed(a.hermes_webhook_url@)
    &&& c.hermes_webhook_secret@ == trimmed(a.hermes_webhook_secret@)
    &&& c.bark_server_url@ == trimmed(a.bark_server_url@)
    &&& c.ignore_subagent_notifications == a.ignore_subagent_notifications
}

impl Config {
    /// Fills each empty field from `other` (trimmed); values already set win.
    pub fn fill_empty_from(&mut self, other: Config)
        ensures
            filled_from(*final(self), *old(self), other),
    {
        fill(&mut self.bot_token, other.bot_token);
        fill(&mut self.chat_id, other.chat_id);
        fill(&mut self.openilink_hub_url, other.openilink_hub_url);
        fill(&mut self.openilink_hub_token, other.openilink_hub_token);
        fill(&mut self.hermes_webhook_url, other.hermes_webhook_url);
        fill(&mut self.hermes_webhook_secret, other.hermes_webhook_secret);
        fill(&mut self.bark_server_url, other.bark_server_url);
        if !self.ignore_subagent_notifications {
            self.ignore_subagent_notifications = other.ignore_subagent_notifications;
        }
    }

    /// Trims every text field.
    pub fn trim_values(&mut self)
        ensures
            trimmed_from(*final(self), *old(self)),
    {
        self.bot_token = trim_str(self.bot_token.as_str());
        self.chat_id = trim_str(self.chat_id.as_str());
        self.openilink_hub_url = trim_str(self.openilink_hub_url.as_str());
        self.openilink_hub_token = trim_str(self.openilink_hub_token.as_str());
        self.hermes_webhook_url = trim_str(self.hermes_webhook_url.as_str());
        self.hermes_webhook_secret = trim_str(self.hermes_webhook_secret.as_str());
        self.bark_server_url = trim_str(self.bark_server_url.as_str());
    }

    /// The configuration as it is written to the file: every value trimmed.
    pub fn normalized(&self) -> (c: Config)
        ensures
            trimmed_from(c, *self),
    {
        let mut c = self.clone();
        c.trim_values();
        c
    }

    /// Whether sub-agents are notified too, so that installing registers the
    /// `SubagentStop` hook.
    pub fn notifies_subagents(&self) -> (res: bool)
        ensures
            res == !self.ignore_subagent_notifications,
    {
        !self.ignore_subagent_notifications
    }

    /// The configuration the channel form edits: the file's (as serde read
    /// it), or the default when there is no file.
    pub fn load_from_file(file: Option<Config>) -> (c: Config)
        ensures
            match file {
                Some(f) => c == f,
                None => is_unset(c),
            },
    {
        match file {
            Some(f) => f,
            None => Config::default(),
        }
    }

    /// The configuration that `save` writes to the file: every value trimmed.
    pub fn save(&self) -> (c: Config)
        ensures
            trimmed_from(c, *self),
    {
        self.normalized()
    }

    /// The configuration in effect: the environment's values (trimmed), each
    /// empty one filled from the file's when there is a file.
    pub fn from_sources(environment: Config, file: Option<Config>) -> (c: Config)
        ensures
            match file {
                Some(f) => exists|e: Config| trimmed_from(e, environment) && filled_from(c, e, f),
                None => trimmed_from(c, environment),
            },
    {
        let mut c = environment.normalized();
        match file {
            Some(f) => {
                let ghost e = c;
                c.fill_empty_from(f);
                assert(trimmed_from(e, environment) && filled_from(c, e, f));
            },
            None => {},
        }
        c
    }
}

/// Law: a value that is set stays set when the file is merged in, an empty
/// one takes the file's value trimmed, and merging the same file again
/// changes nothing.
pub proof fn lemma_fill_keeps_set_values(target: Seq<char>, source: Seq<char>)
    ensures
        target.len() > 0 ==> filled(target, source) == target,
        target.len() == 0 ==> filled(target, source) == trimmed(source),
        filled(filled(target, source), source) == filled(target, source),
{
}

} // verus!
