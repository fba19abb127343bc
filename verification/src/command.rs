use vstd::prelude::*;
use crate::text::{
    chars_of, find_from, lemma_no_occurrence, lemma_split_first, lemma_split_nonempty,
    lemma_split_single, piece_string, range_is, split, split_ranges,
};

verus! {

/// A command sent by the control panel.
#[derive(Debug, PartialEq, Eq, Structural, Clone, Copy)]
pub enum ServerCommand {
    Start,
    Stop,
    PlayerInput,
}

/// A control-panel command with the data that came along with it.
#[derive(Debug)]
pub struct ServerCommandMessage {
    pub command: ServerCommand,
    pub data: String,
}

/// The separator between a command and its data: `|||`.
pub open spec fn command_separator() -> Seq<char> {
    seq!['|', '|', '|']
}

/// The command that a command word names, if any (`start`, `stop`, `input`).
pub open spec fn command_named(word: Seq<char>) -> Option<ServerCommand> {
    if word == seq!['s', 't', 'a', 'r', 't'] {
        Some(ServerCommand::Start)
    } else if word == seq!['s', 't', 'o', 'p'] {
        Some(ServerCommand::Stop)
    } else if word == seq!['i', 'n', 'p', 'u', 't'] {
        Some(ServerCommand::PlayerInput)
    } else {
        None
    }
}

/// What a control message means: its first `|||`-separated piece names the
/// command, its second piece (empty when there is none) is the data.
pub open spec fn command_message(text: Seq<char>) -> Option<(ServerCommand, Seq<char>)> {
    let pieces = split(text, command_separator());
    match command_named(pieces[0]) {
        Some(c) => Some((c, if pieces.len() > 1 { pieces[1] } else { Seq::empty() })),
        None => None,
    }
}

/// Reads a control message such as `start|||[...]`; `None` for an unknown command.
pub fn parse_command(text: &str) -> (r: Option<ServerCommandMessage>)
    ensures
        r matches Some(m) ==> command_message(text@) == Some((m.command, m.data@)),
        r is None ==> command_message(text@) is None,
{
    let s = chars_of(text);
    let sep = vec!['|', '|', '|'];
    let ranges = split_ranges(&s, &sep);
    proof {
        lemma_split_nonempty(s@, sep@);
    }
    let (from, to) = ranges[0];
    let command = if range_is(&s, from, to, &vec!['s', 't', 'a', 'r', 't']) {
        ServerCommand::Start
    } else if range_is(&s, from, to, &vec!['s', 't', 'o', 'p']) {
        ServerCommand::Stop
    } else if range_is(&s, from, to, &vec!['i', 'n', 'p', 'u', 't']) {
        ServerCommand::PlayerInput
    } else {
        return None;
    };
    let data = if ranges.len() > 1 {
        piece_string(text, &s, &ranges, 1)
    } else {
        String::new()
    };
    Some(ServerCommandMessage { command, data })
}

/// The word that names a command.
pub open spec fn command_word(c: ServerCommand) -> Seq<char> {
    match c {
        ServerCommand::Start => seq!['s', 't', 'a', 'r', 't'],
        ServerCommand::Stop => seq!['s', 't', 'o', 'p'],
        ServerCommand::PlayerInput => seq!['i', 'n', 'p', 'u', 't'],
    }
}

proof fn lemma_word_has_no_bar(c: ServerCommand)
    ensures
        forall|i: int| 0 <= i < command_word(c).len() ==> command_word(c)[i] != '|',
{
    let w = command_word(c);
    assert forall|i: int| 0 <= i < w.len() implies w[i] != '|' by {
        match c {
            ServerCommand::Start => {
                assert(i == 0 || i == 1 || i == 2 || i == 3 || i == 4);
            },
            ServerCommand::Stop => {
                assert(i == 0 || i == 1 || i == 2 || i == 3);
            },
            ServerCommand::PlayerInput => {
                assert(i == 0 || i == 1 || i == 2 || i == 3 || i == 4);
            },
        }
    }
}

/// A control message made of a command word, `|||` and data in which `|||`
/// does not occur is read back as that command carrying exactly that data.
pub proof fn command_round_trip(c: ServerCommand, data: Seq<char>)
    requires
        find_from(data, command_separator(), 0) is None,
    ensures
        command_message(command_word(c) + command_separator() + data) == Some((c, data)),
{
    lemma_word_has_no_bar(c);
    lemma_split_first(command_word(c), command_separator(), data);
    lemma_split_single(data, command_separator());
}

/// A bare command word is read as that command with empty data.
pub proof fn command_without_data(c: ServerCommand)
    ensures
        command_message(command_word(c)) == Some((c, Seq::<char>::empty())),
{
    lemma_word_has_no_bar(c);
    lemma_no_occurrence(command_word(c), command_separator());
    lemma_split_single(command_word(c), command_separator());
}

} // verus!
