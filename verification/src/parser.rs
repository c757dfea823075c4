//! The protocol parser: a pure function from one line of text to a parsed
//! action — a recognized request, a parse error tagged by command, or a
//! silent ignore.
//!
//! The line is split on single ASCII spaces; the first token selects the
//! command (case-sensitive uppercase).  [`spec_parse`] pins the whole
//! function down mathematically, and [`parse_incoming`] is proved to return
//! exactly that.

use vstd::prelude::*;
use crate::messages::{incoming_line, wf_incoming, IncomingMsg, IncomingView, Message};
use crate::names::{
    is_valid_room_name, is_valid_user_name, lemma_valid_name_no_space, valid_room_name,
    valid_user_name,
};
use crate::tokens::{
    join_from, join_spaces, lemma_join_split, lemma_split_append, lemma_split_len,
    lemma_split_no_space, split_spaces, split_spaces_exec, str_eq,
};

verus! {

/// The command a line was recognized as; parse errors are tagged with it.
#[derive(Debug, PartialEq)]
pub enum Command {
    Name,
    Join,
    Leave,
    Say,
    Users,
    Rooms,
    Pong,
}

/// Ways a recognized command can fail to parse.
#[derive(Debug, PartialEq)]
pub enum ParseError {
    /// The given name doesn't match the required format.
    BadNameFormat,
    /// The given room name doesn't match the required format.
    BadRoomNameFormat,
    /// The incoming message doesn't have a correct amount of arguments.
    BadArguments,
}

impl Message for ParseError {
    open spec fn line_spec(&self) -> Seq<char> {
        match self {
            ParseError::BadArguments => "ERROR bad arguments"@,
            ParseError::BadNameFormat => "ERROR bad name format"@,
            ParseError::BadRoomNameFormat => "ERROR bad room name format"@,
        }
    }

    fn to_line(&self) -> (r: String) {
        match self {
            ParseError::BadArguments => "ERROR bad arguments".to_owned(),
            ParseError::BadNameFormat => "ERROR bad name format".to_owned(),
            ParseError::BadRoomNameFormat => "ERROR bad room name format".to_owned(),
        }
    }
}

/// What the parser makes of one line.
#[derive(Debug, PartialEq)]
pub enum ParsedAction {
    /// Ignore the input.
    Ignore,
    /// Process a well-formed message.
    Process(IncomingMsg),
    /// Error parsing a valid command.
    Error(Command, ParseError),
}

/// The mathematical shape of a parsed action, over character sequences.
pub enum ActionView {
    Ignore,
    Process(IncomingView),
    Error(Command, ParseError),
}

impl View for ParsedAction {
    type V = ActionView;

    open spec fn view(&self) -> ActionView {
        match self {
            ParsedAction::Ignore => ActionView::Ignore,
            ParsedAction::Process(m) => ActionView::Process(m@),
            ParsedAction::Error(c, e) => ActionView::Error(*c, *e),
        }
    }
}

/// What a `SAY` line with tokens `ts` parses to.
pub open spec fn spec_parse_say(ts: Seq<Seq<char>>) -> ActionView {
    if ts.len() >= 3 {
        let target = ts[1];
        if valid_room_name(target) {
            ActionView::Process(IncomingView::SayRoom(target, join_spaces(ts.skip(2))))
        } else if valid_user_name(target) {
            ActionView::Process(IncomingView::SayUser(target, join_spaces(ts.skip(2))))
        } else if target.len() > 0 && target[0] == '#' {
            ActionView::Error(Command::Say, ParseError::BadRoomNameFormat)
        } else if target.len() > 0 && target[0] == '@' {
            ActionView::Error(Command::Say, ParseError::BadNameFormat)
        } else {
            ActionView::Error(Command::Say, ParseError::BadArguments)
        }
    } else {
        ActionView::Error(Command::Say, ParseError::BadArguments)
    }
}

/// What one line parses to.  Total: defined for every character sequence.
pub open spec fn spec_parse(s: Seq<char>) -> ActionView {
    if s.len() == 0 {
        ActionView::Ignore
    } else {
        let ts = split_spaces(s);
        let head = ts[0];
        if head == "QUIT"@ {
            ActionView::Process(IncomingView::Quit)
        } else if head == "NAME"@ {
            if ts.len() == 2 {
                if valid_user_name(ts[1]) {
                    ActionView::Process(IncomingView::Name(ts[1]))
                } else {
                    ActionView::Error(Command::Name, ParseError::BadNameFormat)
                }
            } else {
                ActionView::Error(Command::Name, ParseError::BadArguments)
            }
        } else if head == "JOIN"@ {
            if ts.len() == 2 {
                if valid_room_name(ts[1]) {
                    ActionView::Process(IncomingView::Join(ts[1]))
                } else {
                    ActionView::Error(Command::Join, ParseError::BadRoomNameFormat)
                }
            } else {
                ActionView::Error(Command::Join, ParseError::BadArguments)
            }
        } else if head == "LEAVE"@ {
            if ts.len() == 2 {
                if valid_room_name(ts[1]) {
                    ActionView::Process(IncomingView::Leave(ts[1]))
                } else {
                    ActionView::Error(Command::Leave, ParseError::BadRoomNameFormat)
                }
            } else {
                ActionView::Error(Command::Leave, ParseError::BadArguments)
            }
        } else if head == "SAY"@ {
            spec_parse_say(ts)
        } else if head == "ROOMS"@ {
            if ts.len() == 1 {
                ActionView::Process(IncomingView::Rooms)
            } else {
                ActionView::Error(Command::Rooms, ParseError::BadArguments)
            }
        } else if head == "USERS"@ {
            if ts.len() == 2 {
                if valid_room_name(ts[1]) {
                    ActionView::Process(IncomingView::Users(ts[1]))
                } else {
                    ActionView::Error(Command::Users, ParseError::BadRoomNameFormat)
                }
            } else {
                ActionView::Error(Command::Users, ParseError::BadArguments)
            }
        } else if head == "PONG"@ {
            if ts.len() == 1 {
                ActionView::Process(IncomingView::Pong)
            } else {
                ActionView::Error(Command::Pong, ParseError::BadArguments)
            }
        } else {
            ActionView::Ignore
        }
    }
}

/// Parses one line.  Empty lines and unknown commands are silently ignored;
/// recognized commands are validated for arity and name shape.
pub fn parse_incoming(input: &str) -> (r: ParsedAction)
    ensures
        r@ == spec_parse(input@),
{
    if input.is_empty() {
        return ParsedAction::Ignore;
    }
    let pieces = split_spaces_exec(input);
    let ghost ts = split_spaces(input@);
    proof {
        assert(forall|k: int|
            0 <= k < pieces@.len() ==> pieces.deep_view()[k] == #[trigger] pieces@[k]@);
    }
    if str_eq(pieces[0].as_str(), "QUIT") {
        ParsedAction::Process(IncomingMsg::Quit)
    } else if str_eq(pieces[0].as_str(), "NAME") {
        if pieces.len() == 2 {
            if is_valid_user_name(pieces[1].as_str()) {
                ParsedAction::Process(IncomingMsg::Name(pieces[1].clone()))
            } else {
                ParsedAction::Error(Command::Name, ParseError::BadNameFormat)
            }
        } else {
            ParsedAction::Error(Command::Name, ParseError::BadArguments)
        }
    } else if str_eq(pieces[0].as_str(), "JOIN") {
        if pieces.len() == 2 {
            if is_valid_room_name(pieces[1].as_str()) {
                ParsedAction::Process(IncomingMsg::Join(pieces[1].clone()))
            } else {
                ParsedAction::Error(Command::Join, ParseError::BadRoomNameFormat)
            }
        } else {
            ParsedAction::Error(Command::Join, ParseError::BadArguments)
        }
    } else if str_eq(pieces[0].as_str(), "LEAVE") {
        if pieces.len() == 2 {
            if is_valid_room_name(pieces[1].as_str()) {
                ParsedAction::Process(IncomingMsg::Leave(pieces[1].clone()))
            } else {
                ParsedAction::Error(Command::Leave, ParseError::BadRoomNameFormat)
            }
        } else {
            ParsedAction::Error(Command::Leave, ParseError::BadArguments)
        }
    } else if str_eq(pieces[0].as_str(), "SAY") {
        if pieces.len() >= 3 {
            if is_valid_room_name(pieces[1].as_str()) {
                let text = join_from(&pieces, 2);
                ParsedAction::Process(IncomingMsg::SayRoom(pieces[1].clone(), text))
            } else if is_valid_user_name(pieces[1].as_str()) {
                let text = join_from(&pieces, 2);
                ParsedAction::Process(IncomingMsg::SayUser(pieces[1].clone(), text))
            } else if pieces[1].as_str().unicode_len() > 0 && pieces[1].as_str().get_char(0)
                == '#' {
                ParsedAction::Error(Command::Say, ParseError::BadRoomNameFormat)
            } else if pieces[1].as_str().unicode_len() > 0 && pieces[1].as_str().get_char(0)
                == '@' {
                ParsedAction::Error(Command::Say, ParseError::BadNameFormat)
            } else {
                ParsedAction::Error(Command::Say, ParseError::BadArguments)
            }
        } else {
            ParsedAction::Error(Command::Say, ParseError::BadArguments)
        }
    } else if str_eq(pieces[0].as_str(), "ROOMS") {
        if pieces.len() == 1 {
            ParsedAction::Process(IncomingMsg::Rooms)
        } else {
            ParsedAction::Error(Command::Rooms, ParseError::BadArguments)
        }
    } else if str_eq(pieces[0].as_str(), "USERS") {
        if pieces.len() == 2 {
            if is_valid_room_name(pieces[1].as_str()) {
                ParsedAction::Process(IncomingMsg::Users(pieces[1].clone()))
            } else {
                ParsedAction::Error(Command::Users, ParseError::BadRoomNameFormat)
            }
        } else {
            ParsedAction::Error(Command::Users, ParseError::BadArguments)
        }
    } else if str_eq(pieces[0].as_str(), "PONG") {
        if pieces.len() == 1 {
            ParsedAction::Process(IncomingMsg::Pong)
        } else {
            ParsedAction::Error(Command::Pong, ParseError::BadArguments)
        }
    } else {
        ParsedAction::Ignore
    }
}

/// Every message the parser accepts is well formed: names and rooms it
/// carries have their required shape.
pub open spec fn action_wf(a: ActionView) -> bool {
    match a {
        ActionView::Process(m) => wf_incoming(m),
        ActionView::Ignore => true,
        ActionView::Error(_c, _e) => true,
    }
}

pub proof fn lemma_parse_wf(s: Seq<char>)
    ensures
        action_wf(spec_parse(s)),
{
}

/// A command word followed by one space-free argument splits into exactly
/// those two tokens.
proof fn lemma_split_cmd_arg(cmd: Seq<char>, arg: Seq<char>)
    requires
        forall|i: int| 0 <= i < cmd.len() ==> cmd[i] != ' ',
        forall|i: int| 0 <= i < arg.len() ==> arg[i] != ' ',
    ensures
        split_spaces(cmd + seq![' '] + arg) =~~= seq![cmd, arg],
{
    lemma_split_append(cmd, arg);
    lemma_split_no_space(cmd);
    lemma_split_no_space(arg);
}

/// A command word, a space-free target and a free-form text split into the
/// two leading tokens followed by the tokens of the text.
proof fn lemma_split_cmd_target_text(cmd: Seq<char>, target: Seq<char>, text: Seq<char>)
    requires
        forall|i: int| 0 <= i < cmd.len() ==> cmd[i] != ' ',
        forall|i: int| 0 <= i < target.len() ==> target[i] != ' ',
    ensures
        split_spaces(cmd + seq![' '] + (target + seq![' '] + text)) =~~= seq![cmd, target]
            + split_spaces(text),
{
    lemma_split_append(cmd, target + seq![' '] + text);
    lemma_split_append(target, text);
    lemma_split_no_space(cmd);
    lemma_split_no_space(target);
}

/// Two sequences differing at one index differ.
proof fn lemma_seq_ne_at(a: Seq<char>, b: Seq<char>, i: int)
    requires
        0 <= i < a.len(),
        0 <= i < b.len(),
        a[i] != b[i],
    ensures
        a != b,
{
}

/// The command words are pairwise distinct and contain no space.
proof fn lemma_command_words()
    ensures
        forall|i: int| 0 <= i < "QUIT"@.len() ==> "QUIT"@[i] != ' ',
        forall|i: int| 0 <= i < "NAME"@.len() ==> "NAME"@[i] != ' ',
        forall|i: int| 0 <= i < "JOIN"@.len() ==> "JOIN"@[i] != ' ',
        forall|i: int| 0 <= i < "LEAVE"@.len() ==> "LEAVE"@[i] != ' ',
        forall|i: int| 0 <= i < "SAY"@.len() ==> "SAY"@[i] != ' ',
        forall|i: int| 0 <= i < "ROOMS"@.len() ==> "ROOMS"@[i] != ' ',
        forall|i: int| 0 <= i < "USERS"@.len() ==> "USERS"@[i] != ' ',
        forall|i: int| 0 <= i < "PONG"@.len() ==> "PONG"@[i] != ' ',
        "NAME"@ != "QUIT"@,
        "JOIN"@ != "QUIT"@ && "JOIN"@ != "NAME"@,
        "LEAVE"@ != "QUIT"@ && "LEAVE"@ != "NAME"@ && "LEAVE"@ != "JOIN"@,
        "SAY"@ != "QUIT"@ && "SAY"@ != "NAME"@ && "SAY"@ != "JOIN"@ && "SAY"@ != "LEAVE"@,
        "ROOMS"@ != "QUIT"@ && "ROOMS"@ != "NAME"@ && "ROOMS"@ != "JOIN"@ && "ROOMS"@
            != "LEAVE"@ && "ROOMS"@ != "SAY"@,
        "USERS"@ != "QUIT"@ && "USERS"@ != "NAME"@ && "USERS"@ != "JOIN"@ && "USERS"@
            != "LEAVE"@ && "USERS"@ != "SAY"@ && "USERS"@ != "ROOMS"@,
        "PONG"@ != "QUIT"@ && "PONG"@ != "NAME"@ && "PONG"@ != "JOIN"@ && "PONG"@ != "LEAVE"@
            && "PONG"@ != "SAY"@ && "PONG"@ != "ROOMS"@ && "PONG"@ != "USERS"@,
{
    reveal_strlit("QUIT");
    reveal_strlit("NAME");
    reveal_strlit("JOIN");
    reveal_strlit("LEAVE");
    reveal_strlit("SAY");
    reveal_strlit("ROOMS");
    reveal_strlit("USERS");
    reveal_strlit("PONG");
    lemma_seq_ne_at("NAME"@, "QUIT"@, 0);
    lemma_seq_ne_at("JOIN"@, "QUIT"@, 0);
    lemma_seq_ne_at("JOIN"@, "NAME"@, 0);
    lemma_seq_ne_at("PONG"@, "QUIT"@, 0);
    lemma_seq_ne_at("PONG"@, "NAME"@, 0);
    lemma_seq_ne_at("PONG"@, "JOIN"@, 0);
    lemma_seq_ne_at("ROOMS"@, "LEAVE"@, 0);
    lemma_seq_ne_at("USERS"@, "LEAVE"@, 0);
    lemma_seq_ne_at("USERS"@, "ROOMS"@, 0);
}

/// Round trip for the commands that carry a single name or room argument.
proof fn lemma_round_trip_cmd_arg(m: IncomingView, word: Seq<char>, line: Seq<char>, arg: Seq<
    char,
>)
    requires
        wf_incoming(m),
        line == incoming_line(m),
        line =~= word + seq![' '] + arg,
        forall|i: int| 0 <= i < word.len() ==> word[i] != ' ',
        m matches IncomingView::Name(n) ==> arg == n && word == "NAME"@,
        m matches IncomingView::Join(r) ==> arg == r && word == "JOIN"@,
        m matches IncomingView::Leave(r) ==> arg == r && word == "LEAVE"@,
        m matches IncomingView::Users(r) ==> arg == r && word == "USERS"@,
        m matches IncomingView::Name(_n) || m matches IncomingView::Join(_r) || m matches
            IncomingView::Leave(_r2) || m matches IncomingView::Users(_r3),
    ensures
        split_spaces(line) =~~= seq![word, arg],
        split_spaces(line).len() == 2,
        split_spaces(line)[0] == word,
        split_spaces(line)[1] == arg,
{
    lemma_valid_name_no_space(arg);
    lemma_split_cmd_arg(word, arg);
}

/// Formatting a well-formed incoming message and parsing the line back
/// yields exactly that message: the parser inverts the formatter.
pub proof fn lemma_parse_format_round_trip(m: IncomingView)
    requires
        wf_incoming(m),
    ensures
        spec_parse(incoming_line(m)) == ActionView::Process(m),
{
    lemma_command_words();
    reveal_strlit(" ");
    reveal_strlit("QUIT");
    reveal_strlit("NAME");
    reveal_strlit("JOIN");
    reveal_strlit("LEAVE");
    reveal_strlit("SAY");
    reveal_strlit("ROOMS");
    reveal_strlit("USERS");
    reveal_strlit("PONG");
    let line = incoming_line(m);
    match m {
        IncomingView::Name(n) => {
            reveal_strlit("NAME ");
            assert("NAME "@ =~= "NAME"@ + seq![' ']);
            assert(line =~= "NAME"@ + seq![' '] + n);
            lemma_round_trip_cmd_arg(m, "NAME"@, line, n);
        },
        IncomingView::Join(r) => {
            reveal_strlit("JOIN ");
            assert("JOIN "@ =~= "JOIN"@ + seq![' ']);
            assert(line =~= "JOIN"@ + seq![' '] + r);
            lemma_round_trip_cmd_arg(m, "JOIN"@, line, r);
        },
        IncomingView::Leave(r) => {
            reveal_strlit("LEAVE ");
            assert("LEAVE "@ =~= "LEAVE"@ + seq![' ']);
            assert(line =~= "LEAVE"@ + seq![' '] + r);
            lemma_round_trip_cmd_arg(m, "LEAVE"@, line, r);
        },
        IncomingView::Users(r) => {
            reveal_strlit("USERS ");
            assert("USERS "@ =~= "USERS"@ + seq![' ']);
            assert(line =~= "USERS"@ + seq![' '] + r);
            lemma_round_trip_cmd_arg(m, "USERS"@, line, r);
        },
        IncomingView::SayRoom(r, t) => {
            reveal_strlit("SAY ");
            assert("SAY "@ =~= "SAY"@ + seq![' ']);
            assert(line =~= "SAY"@ + seq![' '] + (r + seq![' '] + t));
            lemma_valid_name_no_space(r);
            lemma_split_cmd_target_text("SAY"@, r, t);
            lemma_split_len(t);
            let ts = split_spaces(line);
            assert(ts.len() >= 3);
            assert(ts[0] == "SAY"@);
            assert(ts[1] == r);
            assert(ts.skip(2) =~~= split_spaces(t));
            lemma_join_split(t);
        },
        IncomingView::SayUser(n, t) => {
            reveal_strlit("SAY ");
            assert("SAY "@ =~= "SAY"@ + seq![' ']);
            assert(line =~= "SAY"@ + seq![' '] + (n + seq![' '] + t));
            lemma_valid_name_no_space(n);
            lemma_split_cmd_target_text("SAY"@, n, t);
            lemma_split_len(t);
            let ts = split_spaces(line);
            assert(ts.len() >= 3);
            assert(ts[0] == "SAY"@);
            assert(ts[1] == n);
            assert(!valid_room_name(n));
            assert(ts.skip(2) =~~= split_spaces(t));
            lemma_join_split(t);
        },
        IncomingView::Rooms => {
            lemma_split_no_space("ROOMS"@);
        },
        IncomingView::Quit => {
            lemma_split_no_space("QUIT"@);
        },
        IncomingView::Pong => {
            lemma_split_no_space("PONG"@);
        },
    }
}

/// The parser is total and pure: it is a function of the line alone, so
/// equal inputs always yield equal outputs.
pub proof fn lemma_parse_deterministic(a: Seq<char>, b: Seq<char>)
    requires
        a == b,
    ensures
        spec_parse(a) == spec_parse(b),
{
}

} // verus!
