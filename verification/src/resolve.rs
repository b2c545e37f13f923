//! From a line of input to a command: the words that name the commands, and
//! what a line asks for.

use vstd::prelude::*;
use vstd::string::StringExecFns;
use crate::command::{
    Apply, Command, CommandView, CompleteCommand, HideCommand, RefreshCommand, RemoveCommand,
    ShowCommand, TriggerCommand,
};
use crate::text::{parse_usize, parsed_usize};
use crate::tracked_event::Uid;

verus! {

/// A command ready to be carried out, with the receiver that it is for.
#[derive(Debug)]
pub enum CommandKind {
    /// A command for the display.
    CliCommand(Command),
    /// A command for the session that owns the data.
    DataCommand(Command),
    /// Undo the latest command.
    Undo,
    /// Leave the program.
    Exit,
}

/// What a `CommandKind` holds.
pub enum CommandKindView {
    CliCommand(CommandView),
    DataCommand(CommandView),
    Undo,
    Exit,
}

impl View for CommandKind {
    type V = CommandKindView;

    open spec fn view(&self) -> CommandKindView {
        match *self {
            CommandKind::CliCommand(c) => CommandKindView::CliCommand(c.command()),
            CommandKind::DataCommand(c) => CommandKindView::DataCommand(c.command()),
            CommandKind::Undo => CommandKindView::Undo,
            CommandKind::Exit => CommandKindView::Exit,
        }
    }
}

/// What the first word of a line asks for.
#[derive(Clone, Copy, Debug, PartialEq, Eq, Structural)]
pub enum CommandInput {
    Create,
    Remove,
    Alter,
    Trigger,
    Show,
    Hide,
    Undo,
    Complete,
    Exit,
}

/// Which first words name a command.
#[derive(Debug)]
pub enum KeyMatcher {
    /// Any of the listed words.
    List(Vec<&'static str>),
    /// Any word that reads as a `usize`.
    Usize,
}

/// What a `KeyMatcher` holds.
pub enum KeyMatcherView {
    List(Seq<Seq<char>>),
    Usize,
}

impl View for KeyMatcher {
    type V = KeyMatcherView;

    open spec fn view(&self) -> KeyMatcherView {
        match *self {
            KeyMatcher::List(words) => KeyMatcherView::List(words@.map_values(|w: &str| w@)),
            KeyMatcher::Usize => KeyMatcherView::Usize,
        }
    }
}

impl KeyMatcherView {
    /// The word names the command.
    pub open spec fn matches(self, word: Seq<char>) -> bool {
        match self {
            KeyMatcherView::List(words) => words.contains(word),
            KeyMatcherView::Usize => parsed_usize(word) is Some,
        }
    }
}

/// One command as the user sees it: how it is shown, which first words name
/// it, what it does in a few words, and what it asks for.
#[derive(Debug)]
pub struct CommandKey {
    /// How the command is shown in the list of commands.
    pub name: &'static str,
    keys: KeyMatcher,
    /// What the command does, in one line.
    pub short_desc: &'static str,
    command_input: CommandInput,
}

/// What a `CommandKey` holds of the matching.
pub struct CommandKeyView {
    pub keys: KeyMatcherView,
    pub command_input: CommandInput,
}

impl View for CommandKey {
    type V = CommandKeyView;

    closed spec fn view(&self) -> CommandKeyView {
        CommandKeyView { keys: self.keys@, command_input: self.command_input }
    }
}

/// The commands in the order in which they are shown and tried.
#[derive(Debug)]
pub struct CommandKeys(Vec<CommandKey>);

impl View for CommandKeys {
    type V = Seq<CommandKeyView>;

    closed spec fn view(&self) -> Seq<CommandKeyView> {
        self.0@.map_values(|key: CommandKey| key@)
    }
}

/// What the first of `keys` that `word` names asks for.
pub open spec fn first_match(keys: Seq<CommandKeyView>, word: Seq<char>) -> Option<CommandInput>
    decreases keys.len(),
{
    if keys.len() == 0 {
        None
    } else if keys[0].keys.matches(word) {
        Some(keys[0].command_input)
    } else {
        first_match(keys.drop_first(), word)
    }
}

/// The words of one command.
pub open spec fn key(words: Seq<Seq<char>>, command_input: CommandInput) -> CommandKeyView {
    CommandKeyView { keys: KeyMatcherView::List(words), command_input }
}

/// The commands of the program: a number completes the event shown under
/// it; then come the commands that are named by words.
pub open spec fn command_table() -> Seq<CommandKeyView> {
    seq![
        CommandKeyView { keys: KeyMatcherView::Usize, command_input: CommandInput::Complete },
        key(seq!["create"@, "c"@], CommandInput::Create),
        key(seq!["rm"@], CommandInput::Remove),
        key(seq!["alter"@, "a"@], CommandInput::Alter),
        key(seq!["trigger"@, "trig"@, "t"@], CommandInput::Trigger),
        key(seq!["show"@, "s"@], CommandInput::Show),
        key(seq!["hide"@, "h"@], CommandInput::Hide),
        key(seq!["undo"@, "u"@], CommandInput::Undo),
        key(seq!["exit"@, "quit"@, "q"@], CommandInput::Exit),
    ]
}

fn same_text(a: &str, b: &str) -> (r: bool)
    ensures
        r == (a@ == b@),
{
    String::from_str(a) == String::from_str(b)
}

impl KeyMatcher {
    /// Whether the word names the command.
    pub fn is_match(&self, word: &str) -> (r: bool)
        ensures
            r == self@.matches(word@),
    {
        match self {
            KeyMatcher::List(words) => {
                let mut i: usize = 0;
                while i < words.len()
                    invariant
                        i <= words@.len(),
                        self@ == KeyMatcherView::List(words@.map_values(|w: &str| w@)),
                        forall|j: int| 0 <= j < i ==> words@[j]@ != word@,
                    decreases words@.len() - i,
                {
                    if same_text(words[i], word) {
                        proof {
                            let list = words@.map_values(|w: &str| w@);
                            assert(list[i as int] == word@);
                        }
                        return true;
                    }
                    i += 1;
                }
                proof {
                    let list = words@.map_values(|w: &str| w@);
                    assert forall|j: int| 0 <= j < list.len() implies list[j] != word@ by {
                        assert(list[j] == words@[j]@);
                    }
                }
                false
            },
            KeyMatcher::Usize => parse_usize(word).is_some(),
        }
    }
}

impl CommandKey {
    /// What the command asks for.
    pub fn command_input(&self) -> (r: CommandInput)
        ensures
            r == self@.command_input,
    {
        self.command_input
    }

    /// Whether the word names the command.
    pub fn is_match(&self, word: &str) -> (r: bool)
        ensures
            r == self@.keys.matches(word@),
    {
        self.keys.is_match(word)
    }
}

impl CommandKeys {
    /// The number of commands.
    pub fn len(&self) -> (r: usize)
        ensures
            r == self@.len(),
    {
        self.0.len()
    }

    /// The command at `index` in the order of the list.
    pub fn get(&self, index: usize) -> (r: &CommandKey)
        requires
            index < self@.len(),
        ensures
            r@ == self@[index as int],
    {
        &self.0[index]
    }

    /// What the first command that `s` names asks for.
    pub fn command_input(&self, s: &str) -> (r: Option<CommandInput>)
        ensures
            r == first_match(self@, s@),
    {
        let mut i: usize = 0;
        proof {
            assert(self@.skip(0) =~= self@);
        }
        while i < self.0.len()
            invariant
                i <= self@.len(),
                self@.len() == self.0@.len(),
                first_match(self@, s@) == first_match(self@.skip(i as int), s@),
            decreases self@.len() - i,
        {
            proof {
                assert(self@.skip(i as int)[0] == self.0@[i as int]@);
                assert(self@.skip(i as int).drop_first() =~= self@.skip(i + 1));
            }
            if self.0[i].is_match(s) {
                return Some(self.0[i].command_input);
            }
            i += 1;
        }
        None
    }

    /// Whether `s` names any of the commands.
    pub fn is_match(&self, s: &str) -> (r: bool)
        ensures
            r == first_match(self@, s@) is Some,
    {
        self.command_input(s).is_some()
    }
}

/// The commands of the program.
pub fn command_keys() -> (r: CommandKeys)
    ensures
        r@ == command_table(),
{
    let mut keys: Vec<CommandKey> = Vec::new();
    keys.push(
        CommandKey {
            name: "<id>",
            keys: KeyMatcher::Usize,
            short_desc: "set event as completed",
            command_input: CommandInput::Complete,
        },
    );
    keys.push(
        CommandKey {
            name: "create",
            keys: KeyMatcher::List(vec!["create", "c"]),
            short_desc: "create an event interactively",
            command_input: CommandInput::Create,
        },
    );
    keys.push(
        CommandKey {
            name: "rm <id>",
            keys: KeyMatcher::List(vec!["rm"]),
            short_desc: "remove registered event",
            command_input: CommandInput::Remove,
        },
    );
    keys.push(
        CommandKey {
            name: "alter <id>",
            keys: KeyMatcher::List(vec!["alter", "a"]),
            short_desc: "alter an existing event",
            command_input: CommandInput::Alter,
        },
    );
    keys.push(
        CommandKey {
            name: "trig <id>",
            keys: KeyMatcher::List(vec!["trigger", "trig", "t"]),
            short_desc: "manually trigger an event now",
            command_input: CommandInput::Trigger,
        },
    );
    keys.push(
        CommandKey {
            name: "show",
            keys: KeyMatcher::List(vec!["show", "s"]),
            short_desc: "show all events and extended status",
            command_input: CommandInput::Show,
        },
    );
    keys.push(
        CommandKey {
            name: "hide",
            keys: KeyMatcher::List(vec!["hide", "h"]),
            short_desc: "hide untriggered events and extended event status",
            command_input: CommandInput::Hide,
        },
    );
    keys.push(
        CommandKey {
            name: "undo",
            keys: KeyMatcher::List(vec!["undo", "u"]),
            short_desc: "undo last action",
            command_input: CommandInput::Undo,
        },
    );
    keys.push(
        CommandKey {
            name: "exit",
            keys: KeyMatcher::List(vec!["exit", "quit", "q"]),
            short_desc: "exit interactive client",
            command_input: CommandInput::Exit,
        },
    );
    let r = CommandKeys(keys);
    proof {
        let table = command_table();
        assert(r@.len() == table.len());
        assert forall|i: int| 0 <= i < table.len() implies r@[i] == table[i] by {
            assert(r@[i] == r.0@[i]@);
            match r.0@[i].keys {
                KeyMatcher::List(words) => {
                    assert(words@.map_values(|w: &str| w@) =~= table[i].keys->List_0);
                },
                KeyMatcher::Usize => {},
            }
        }
        assert(r@ =~= table);
    }
    r
}

/// What a line of input asks for.
#[derive(Debug)]
pub enum Matched {
    /// A command that is ready to be carried out.
    Kind(CommandKind),
    /// A new event: its description has to be asked for.
    Create,
    /// A new description for the event under the uid: it has to be asked
    /// for.
    Alter(Uid),
    /// The command needs the number of an event, and the line has none.
    MissingId,
    /// The word that should be the number of an event is no number.
    InvalidId(String),
    /// No event is shown under the number.
    UnknownId(usize),
    /// The first word names no command.
    Nothing,
}

/// What a `Matched` holds.
pub enum MatchedView {
    Kind(CommandKindView),
    Create,
    Alter(Uid),
    MissingId,
    InvalidId(Seq<char>),
    UnknownId(usize),
    Nothing,
}

impl View for Matched {
    type V = MatchedView;

    open spec fn view(&self) -> MatchedView {
        match *self {
            Matched::Kind(kind) => MatchedView::Kind(kind@),
            Matched::Create => MatchedView::Create,
            Matched::Alter(uid) => MatchedView::Alter(uid),
            Matched::MissingId => MatchedView::MissingId,
            Matched::InvalidId(word) => MatchedView::InvalidId(word@),
            Matched::UnknownId(id) => MatchedView::UnknownId(id),
            Matched::Nothing => MatchedView::Nothing,
        }
    }
}

/// The words as sequences of characters.
pub open spec fn words_view(words: Seq<String>) -> Seq<Seq<char>> {
    words.map_values(|w: String| w@)
}

/// The words of a text as `str::split_whitespace` gives them: the parts
/// between runs of Unicode white space, none of them empty.
pub uninterp spec fn whitespace_words(text: Seq<char>) -> Seq<Seq<char>>;

/// Calls `str::split_whitespace` and copies each word. Trusted: the words
/// are the ones that the name above stands for.
#[verifier::external_body]
fn split_words(input: &str) -> (r: Vec<String>)
    ensures
        words_view(r@) == whitespace_words(input@),
{
    input.split_whitespace().map(|word| word.to_string()).collect()
}

/// The uid of the event that the second word names by the number under
/// which it is shown, or what is wrong with the word.
pub open spec fn chosen_uid(words: Seq<Seq<char>>, ids: Seq<Uid>) -> Result<Uid, MatchedView> {
    if words.len() < 2 {
        Err(MatchedView::MissingId)
    } else {
        match parsed_usize(words[1]) {
            None => Err(MatchedView::InvalidId(words[1])),
            Some(id) => if id < ids.len() {
                Ok(ids[id as int])
            } else {
                Err(MatchedView::UnknownId(id))
            },
        }
    }
}

/// The uids of the events that the words name by the numbers under which
/// they are shown, in the order of the words. A word that is no number, or
/// under whose number no event is shown, is passed over.
pub open spec fn chosen_uids(words: Seq<Seq<char>>, ids: Seq<Uid>) -> Seq<Uid>
    decreases words.len(),
{
    if words.len() == 0 {
        Seq::empty()
    } else {
        let before = chosen_uids(words.drop_last(), ids);
        match parsed_usize(words.last()) {
            Some(id) => if id < ids.len() {
                before.push(ids[id as int])
            } else {
                before
            },
            None => before,
        }
    }
}

/// What the command that needs one event is, once the event is known.
pub open spec fn for_uid(command_input: CommandInput, uid: Uid) -> MatchedView {
    match command_input {
        CommandInput::Remove => MatchedView::Kind(
            CommandKindView::DataCommand(CommandView::Remove(seq![uid])),
        ),
        CommandInput::Trigger => MatchedView::Kind(
            CommandKindView::DataCommand(CommandView::Trigger(uid)),
        ),
        _ => MatchedView::Alter(uid),
    }
}

/// What the words of a line ask for, where `ids` holds the uids of the
/// events in the order in which they are shown. An empty line refreshes.
/// Else the first word names the command; a number completes every event
/// that the line names.
pub open spec fn matched(words: Seq<Seq<char>>, ids: Seq<Uid>) -> MatchedView {
    if words.len() == 0 {
        MatchedView::Kind(CommandKindView::DataCommand(CommandView::Refresh))
    } else {
        match first_match(command_table(), words[0]) {
            None => MatchedView::Nothing,
            Some(CommandInput::Create) => MatchedView::Create,
            Some(CommandInput::Show) => MatchedView::Kind(
                CommandKindView::CliCommand(CommandView::Show),
            ),
            Some(CommandInput::Hide) => MatchedView::Kind(
                CommandKindView::CliCommand(CommandView::Hide),
            ),
            Some(CommandInput::Undo) => MatchedView::Kind(CommandKindView::Undo),
            Some(CommandInput::Exit) => MatchedView::Kind(CommandKindView::Exit),
            Some(CommandInput::Complete) => MatchedView::Kind(
                CommandKindView::DataCommand(CommandView::Complete(chosen_uids(words, ids))),
            ),
            Some(command_input) => match chosen_uid(words, ids) {
                Ok(uid) => for_uid(command_input, uid),
                Err(problem) => problem,
            },
        }
    }
}

fn choose_uid(tokens: &Vec<String>, id_to_uid: &[Uid]) -> (r: Result<Uid, Matched>)
    ensures
        match r {
            Ok(uid) => chosen_uid(words_view(tokens@), id_to_uid@) == Ok::<Uid, MatchedView>(uid),
            Err(problem) => chosen_uid(words_view(tokens@), id_to_uid@) == Err::<
                Uid,
                MatchedView,
            >(problem@),
        },
{
    if tokens.len() < 2 {
        return Err(Matched::MissingId);
    }
    assert(words_view(tokens@)[1] == tokens@[1]@);
    match parse_usize(tokens[1].as_str()) {
        None => Err(Matched::InvalidId(tokens[1].clone())),
        Some(id) => {
            if id < id_to_uid.len() {
                Ok(id_to_uid[id])
            } else {
                Err(Matched::UnknownId(id))
            }
        },
    }
}

fn choose_uids(tokens: &Vec<String>, id_to_uid: &[Uid]) -> (r: Vec<Uid>)
    ensures
        r@ == chosen_uids(words_view(tokens@), id_to_uid@),
{
    let mut uids: Vec<Uid> = Vec::new();
    let mut i: usize = 0;
    let ghost words = words_view(tokens@);
    proof {
        assert(words.take(0) =~= Seq::<Seq<char>>::empty());
    }
    while i < tokens.len()
        invariant
            i <= tokens@.len(),
            words == words_view(tokens@),
            uids@ == chosen_uids(words.take(i as int), id_to_uid@),
        decreases tokens@.len() - i,
    {
        proof {
            assert(words.take(i + 1).drop_last() =~= words.take(i as int));
            assert(words.take(i + 1).last() == tokens@[i as int]@);
        }
        match parse_usize(tokens[i].as_str()) {
            Some(id) => {
                if id < id_to_uid.len() {
                    uids.push(id_to_uid[id]);
                }
            },
            None => {},
        }
        i += 1;
    }
    proof {
        assert(words.take(i as int) =~= words);
    }
    uids
}

/// What the words of a line ask for, where `id_to_uid` holds the uids of
/// the events in the order in which they are shown.
pub fn match_tokens(tokens: &Vec<String>, id_to_uid: &[Uid]) -> (r: Matched)
    ensures
        r@ == matched(words_view(tokens@), id_to_uid@),
{
    if tokens.len() == 0 {
        return Matched::Kind(CommandKind::DataCommand(Command::Refresh(RefreshCommand)));
    }
    assert(words_view(tokens@)[0] == tokens@[0]@);
    let keys = command_keys();
    match keys.command_input(tokens[0].as_str()) {
        None => Matched::Nothing,
        Some(CommandInput::Create) => Matched::Create,
        Some(CommandInput::Show) => Matched::Kind(
            CommandKind::CliCommand(Command::Show(ShowCommand)),
        ),
        Some(CommandInput::Hide) => Matched::Kind(
            CommandKind::CliCommand(Command::Hide(HideCommand)),
        ),
        Some(CommandInput::Undo) => Matched::Kind(CommandKind::Undo),
        Some(CommandInput::Exit) => Matched::Kind(CommandKind::Exit),
        Some(CommandInput::Complete) => {
            let uids = choose_uids(tokens, id_to_uid);
            Matched::Kind(CommandKind::DataCommand(Command::Complete(CompleteCommand(uids))))
        },
        Some(CommandInput::Remove) => match choose_uid(tokens, id_to_uid) {
            Ok(uid) => {
                let mut uids: Vec<Uid> = Vec::new();
                uids.push(uid);
                assert(uids@ =~= seq![uid]);
                Matched::Kind(CommandKind::DataCommand(Command::Remove(RemoveCommand(uids))))
            },
            Err(problem) => problem,
        },
        Some(CommandInput::Trigger) => match choose_uid(tokens, id_to_uid) {
            Ok(uid) => Matched::Kind(
                CommandKind::DataCommand(Command::Trigger(TriggerCommand(uid))),
            ),
            Err(problem) => problem,
        },
        Some(CommandInput::Alter) => match choose_uid(tokens, id_to_uid) {
            Ok(uid) => Matched::Alter(uid),
            Err(problem) => problem,
        },
    }
}

/// What a line of input asks for, where `id_to_uid` holds the uids of the
/// events in the order in which they are shown.
pub fn match_command(input: &str, id_to_uid: &[Uid]) -> (r: Matched)
    ensures
        r@ == matched(whitespace_words(input@), id_to_uid@),
{
    let tokens = split_words(input);
    match_tokens(&tokens, id_to_uid)
}

} // verus!
