//! The settings that hold where the configuration file names none.

use crate::config::{ConfigDSACritType, ConfigDSARules, ConfigDiscord};
use vstd::prelude::*;

verus! {

pub fn auto_update_dsa_data() -> (on: bool)
    ensures
        on,
{
    true
}

pub fn dsa_rules() -> (rules: ConfigDSARules)
    ensures
        rules.crit_rules == ConfigDSACritType::DefaultCrits,
{
    ConfigDSARules { crit_rules: crit_rules() }
}

pub fn crit_rules() -> (rule: ConfigDSACritType)
    ensures
        rule == ConfigDSACritType::DefaultCrits,
{
    ConfigDSACritType::DefaultCrits
}

pub fn discord() -> (settings: ConfigDiscord)
    ensures
        settings.login_token is None,
        settings.application_id is None,
        !settings.use_slash_commands,
        settings.num_threads == 1,
        !settings.require_complete_command,
        settings.use_reply,
        settings.max_attachement_size == 1_000_000,
        settings.max_name_length == 32,
        settings.max_num_characters == 10,
{
    ConfigDiscord {
        login_token: None,
        application_id: None,
        use_slash_commands: use_slash_commands(),
        num_threads: num_threads(),
        require_complete_command: require_complete_command(),
        use_reply: use_reply(),
        max_attachement_size: max_attachement_size(),
        max_name_length: max_name_length(),
        max_num_characters: max_num_characters(),
    }
}

pub fn use_slash_commands() -> (on: bool)
    ensures
        !on,
{
    false
}

pub fn num_threads() -> (threads: usize)
    ensures
        threads == 1,
{
    1
}

pub fn require_complete_command() -> (on: bool)
    ensures
        !on,
{
    false
}

pub fn use_reply() -> (on: bool)
    ensures
        on,
{
    true
}

pub fn max_attachement_size() -> (bytes: u64)
    ensures
        bytes == 1_000_000,
{
    1_000_000
}

pub fn max_name_length() -> (length: usize)
    ensures
        length == 32,
{
    32
}

pub fn max_num_characters() -> (number: usize)
    ensures
        number == 10,
{
    10
}

} // verus!
