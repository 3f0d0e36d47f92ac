//! What the user asks for: the mode of a node, and the commands typed into it.
use crate::dht::Quorum;
use crate::record::Record;
use crate::text::{
    is_white_space, lemma_written_words_are_read, split_whitespace, texts, words,
};
use vstd::prelude::*;
use vstd::string::*;
use vstd::utf8::*;

verus! {

/// Whether a node dials or listens.
#[derive(Debug, Clone, Copy, PartialEq, Eq, Structural)]
pub enum Mode {
    Dial,
    Listen,
}

/// The mode that a text names.
pub open spec fn mode_of(text: Seq<char>) -> Option<Mode> {
    if text == "dial"@ {
        Some(Mode::Dial)
    } else if text == "listen"@ {
        Some(Mode::Listen)
    } else {
        None
    }
}

impl Mode {
    /// Reads a mode: `dial` or `listen`, written exactly so.
    pub fn from_str(s: &str) -> (mode: Result<Mode, String>)
        ensures
            match mode {
                Ok(mode) => mode_of(s@) == Some(mode),
                Err(text) => mode_of(s@) is None && text@ == "Expected 'dial' or 'listen'"@,
            },
    {
        if is_text(s, "dial") {
            Ok(Mode::Dial)
        } else if is_text(s, "listen") {
            Ok(Mode::Listen)
        } else {
            Err("Expected 'dial' or 'listen'".to_owned())
        }
    }
}

/// A mode is read from its name, and from no other text.
pub proof fn lemma_only_names_are_modes(text: Seq<char>)
    ensures
        mode_of(text) == Some(Mode::Dial) <==> text == "dial"@,
        mode_of(text) == Some(Mode::Listen) <==> text == "listen"@,
        mode_of(text) is None <==> text != "dial"@ && text != "listen"@,
{
    reveal_strlit("dial");
    reveal_strlit("listen");
    assert("dial"@.len() != "listen"@.len());
}

/// Each mode has one name.
pub proof fn lemma_modes_have_names()
    ensures
        mode_of("dial"@) == Some(Mode::Dial),
        mode_of("listen"@) == Some(Mode::Listen),
{
    reveal_strlit("dial");
    reveal_strlit("listen");
    assert("dial"@.len() != "listen"@.len());
}

fn is_text(a: &str, b: &str) -> (same: bool)
    ensures
        same == (a@ == b@),
{
    a.to_owned() == b.to_owned()
}

/// What a line of input asks the node to do.
#[derive(Debug)]
pub enum InputAction {
    /// Look the record of `key` up.
    Get { key: Vec<u8> },
    /// Put a record, to be stored by as many peers as `quorum` says.
    Put { record: Record, quorum: Quorum },
    /// Say `notice`, look the record of `key` up, and note that the record is
    /// to be dialed under `peer_name`.
    Dial { peer_name: String, key: Vec<u8>, notice: String },
    /// Print the routing table.
    PrintRoutingTable,
    /// Say that the line is not understood.
    Complain { text: String },
}

/// What the words of a line ask for.
pub enum Command {
    Get { key: Seq<char> },
    Put { key: Seq<char>, value: Seq<char> },
    Dial { peer_name: Seq<char> },
    PrintRoutingTable,
    Complain { text: Seq<char> },
}

/// The command that a line with these words gives. The first word names it;
/// words beyond those that it takes are ignored.
pub open spec fn command(words: Seq<Seq<char>>) -> Command {
    if words.len() >= 1 && words[0] == "GET"@ {
        if words.len() >= 2 {
            Command::Get { key: words[1] }
        } else {
            Command::Complain { text: "Usage: GET <key>"@ }
        }
    } else if words.len() >= 1 && words[0] == "PUT"@ {
        if words.len() >= 3 {
            Command::Put { key: words[1], value: words[2] }
        } else {
            Command::Complain { text: "Usage: PUT <key> <value>"@ }
        }
    } else if words.len() >= 1 && words[0] == "DIAL"@ {
        if words.len() >= 2 {
            Command::Dial { peer_name: words[1] }
        } else {
            Command::Complain { text: "Usage: DIAL <peer_name>"@ }
        }
    } else if words.len() >= 1 && words[0] == "PRINT_RT"@ {
        Command::PrintRoutingTable
    } else {
        Command::Complain { text: "expected GET, PUT, DIAL, or PRINT_RT"@ }
    }
}

/// How a search for a peer is announced.
pub open spec fn dial_notice(peer_name: Seq<char>) -> Seq<char> {
    "Searching for peer '"@ + peer_name + "' in the DHT..."@
}

/// `action` carries the command out: keys and values are the bytes of the
/// words, and a record is put without publisher and expiry, with a quorum of
/// one.
pub open spec fn carries_out(action: InputAction, command: Command) -> bool {
    match command {
        Command::Get { key } => action matches InputAction::Get { key: bytes } && bytes@
            == encode_utf8(key),
        Command::Put { key, value } => action matches InputAction::Put { record, quorum } && {
            &&& record.key@ == encode_utf8(key)
            &&& record.value@ == encode_utf8(value)
            &&& record.publisher is None
            &&& record.expires is None
            &&& quorum == Quorum::One
        },
        Command::Dial { peer_name } => action matches InputAction::Dial {
            peer_name: name,
            key: bytes,
            notice,
        } && {
            &&& name@ == peer_name
            &&& bytes@ == encode_utf8(peer_name)
            &&& notice@ == dial_notice(peer_name)
        },
        Command::PrintRoutingTable => action is PrintRoutingTable,
        Command::Complain { text } => action matches InputAction::Complain { text: said } && said@
            == text,
    }
}

/// What a line of input asks for.
pub fn handle_input_line(line: &str) -> (action: InputAction)
    ensures
        carries_out(action, command(words(line@))),
{
    let args: Vec<String> = split_whitespace(line);
    proof {
        assert(texts(args@).len() == args@.len());
        assert forall|i: int| 0 <= i < args@.len() implies #[trigger] words(line@)[i]
            == args@[i]@ by {
            assert(texts(args@)[i] == args@[i]@);
        }
    }
    if args.len() >= 1 && is_text(args[0].as_str(), "GET") {
        if args.len() >= 2 {
            InputAction::Get { key: args[1].as_str().as_bytes_vec() }
        } else {
            InputAction::Complain { text: "Usage: GET <key>".to_owned() }
        }
    } else if args.len() >= 1 && is_text(args[0].as_str(), "PUT") {
        if args.len() >= 3 {
            let record = Record {
                key: args[1].as_str().as_bytes_vec(),
                value: args[2].as_str().as_bytes_vec(),
                publisher: None,
                expires: None,
            };
            InputAction::Put { record, quorum: Quorum::One }
        } else {
            InputAction::Complain { text: "Usage: PUT <key> <value>".to_owned() }
        }
    } else if args.len() >= 1 && is_text(args[0].as_str(), "DIAL") {
        if args.len() >= 2 {
            let notice: String = "Searching for peer '".to_owned().concat(args[1].as_str()).concat(
                "' in the DHT...",
            );
            InputAction::Dial {
                peer_name: args[1].clone(),
                key: args[1].as_str().as_bytes_vec(),
                notice,
            }
        } else {
            InputAction::Complain { text: "Usage: DIAL <peer_name>".to_owned() }
        }
    } else if args.len() >= 1 && is_text(args[0].as_str(), "PRINT_RT") {
        InputAction::PrintRoutingTable
    } else {
        InputAction::Complain { text: "expected GET, PUT, DIAL, or PRINT_RT".to_owned() }
    }
}

/// A line that starts with `GET` and has a second word asks for the record of
/// that word, all of it; without one it is refused.
pub proof fn lemma_get_line(line: Seq<char>, action: InputAction)
    requires
        carries_out(action, command(words(line))),
        words(line).len() >= 1,
        words(line)[0] == "GET"@,
    ensures
        words(line).len() >= 2 ==> (action matches InputAction::Get { key } && key@ == encode_utf8(
            words(line)[1],
        )),
        words(line).len() == 1 ==> (action matches InputAction::Complain { text } && text@
            == "Usage: GET <key>"@),
{
}

/// A line that starts with `PUT` and has two more words puts the third under the
/// second, all of both, at one peer or more; with fewer words it is refused.
pub proof fn lemma_put_line(line: Seq<char>, action: InputAction)
    requires
        carries_out(action, command(words(line))),
        words(line).len() >= 1,
        words(line)[0] == "PUT"@,
    ensures
        words(line).len() >= 3 ==> (action matches InputAction::Put { record, quorum } && {
            &&& record.key@ == encode_utf8(words(line)[1])
            &&& record.value@ == encode_utf8(words(line)[2])
            &&& record.publisher is None
            &&& record.expires is None
            &&& quorum is One
        }),
        words(line).len() < 3 ==> (action matches InputAction::Complain { text } && text@
            == "Usage: PUT <key> <value>"@),
{
    lemma_command_names_differ();
}

/// A line that starts with `DIAL` and has a second word dials the peer of that
/// name, all of it, and says so; without one it is refused.
pub proof fn lemma_dial_line(line: Seq<char>, action: InputAction)
    requires
        carries_out(action, command(words(line))),
        words(line).len() >= 1,
        words(line)[0] == "DIAL"@,
    ensures
        words(line).len() >= 2 ==> (action matches InputAction::Dial { peer_name, key, notice } && {
            &&& peer_name@ == words(line)[1]
            &&& key@ == encode_utf8(words(line)[1])
            &&& notice@ == "Searching for peer '"@ + words(line)[1] + "' in the DHT..."@
        }),
        words(line).len() == 1 ==> (action matches InputAction::Complain { text } && text@
            == "Usage: DIAL <peer_name>"@),
{
    lemma_command_names_differ();
}

/// A line that starts with `PRINT_RT` has the routing table printed. A line that
/// starts with anything but a command, or is blank, is refused.
pub proof fn lemma_other_line(line: Seq<char>, action: InputAction)
    requires
        carries_out(action, command(words(line))),
        words(line).len() == 0 || (words(line)[0] != "GET"@ && words(line)[0] != "PUT"@ && words(
            line,
        )[0] != "DIAL"@),
    ensures
        words(line).len() >= 1 && words(line)[0] == "PRINT_RT"@ ==> action is PrintRoutingTable,
        words(line).len() == 0 || words(line)[0] != "PRINT_RT"@ ==> (
        action matches InputAction::Complain { text } && text@
            == "expected GET, PUT, DIAL, or PRINT_RT"@),
{
}

/// A typed put puts what was typed: the value under the key, as they stand on
/// the line.
pub proof fn lemma_typed_put(key: Seq<char>, value: Seq<char>, action: InputAction)
    requires
        key.len() > 0 && value.len() > 0,
        forall|i: int| 0 <= i < key.len() ==> !is_white_space(#[trigger] key[i]),
        forall|i: int| 0 <= i < value.len() ==> !is_white_space(#[trigger] value[i]),
        carries_out(action, command(words("PUT"@.push(' ') + (key.push(' ') + value)))),
    ensures
        action matches InputAction::Put { record, quorum } && record.key@ == encode_utf8(key)
            && record.value@ == encode_utf8(value) && quorum is One,
{
    reveal_strlit("PUT");
    lemma_written_words_are_read("PUT"@, key, value);
    lemma_put_line("PUT"@.push(' ') + (key.push(' ') + value), action);
}

/// A typed look-up, or a typed dial, is for the word that was typed.
pub proof fn lemma_typed_word(word: Seq<char>, get: InputAction, dial: InputAction)
    requires
        word.len() > 0,
        forall|i: int| 0 <= i < word.len() ==> !is_white_space(#[trigger] word[i]),
        carries_out(get, command(words("GET"@.push(' ') + word))),
        carries_out(dial, command(words("DIAL"@.push(' ') + word))),
    ensures
        get matches InputAction::Get { key } && key@ == encode_utf8(word),
        dial matches InputAction::Dial { peer_name, key, .. } && peer_name@ == word && key@
            == encode_utf8(word),
{
    reveal_strlit("GET");
    reveal_strlit("DIAL");
    lemma_written_words_are_read("GET"@, word, word);
    lemma_written_words_are_read("DIAL"@, word, word);
    lemma_get_line("GET"@.push(' ') + word, get);
    lemma_dial_line("DIAL"@.push(' ') + word, dial);
}

proof fn lemma_command_names_differ()
    ensures
        "GET"@ != "PUT"@,
        "GET"@ != "DIAL"@,
        "PUT"@ != "DIAL"@,
{
    reveal_strlit("GET");
    reveal_strlit("PUT");
    reveal_strlit("DIAL");
    assert("GET"@[0] != "PUT"@[0]);
    assert("GET"@.len() != "DIAL"@.len());
    assert("PUT"@.len() != "DIAL"@.len());
}

/// No command looks beyond the third word.
pub proof fn lemma_surplus_words_are_ignored(words: Seq<Seq<char>>)
    requires
        words.len() >= 3,
    ensures
        command(words) == command(words.take(3)),
{
}

} // verus!
