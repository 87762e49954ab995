//! The command grammar: one line of input parses to exactly one command, or
//! fails with a specific error.
//!
//! A line starting with `%` is an administrative command (`login`, `add_user`,
//! `remove_user`, `show_users`); one starting with `@` is a chat message
//! annotated with mentioned names; anything else is a plain chat message.

use vstd::prelude::*;
use vstd::string::StrSliceExecFns;

use crate::error::Error;
use crate::strutil::find_space_from;
use crate::strutil::first_space;
use crate::strutil::str_eq;
use crate::strutil::substr_eq;
use crate::strutil::trim;
use crate::strutil::trim_str;

verus! {

/// Declares uuid::Uuid so it can stand in fields and signatures; the library
/// stores parsed UUID values but never reads inside them.
#[verifier::external_type_specification]
#[verifier::external_body]
pub struct ExUuid(uuid::Uuid);

/// Whether `uuid::Uuid::parse_str` accepts `s`: the uuid crate's textual
/// formats (hyphenated, simple, urn, braced), a result that depends on the
/// characters alone.
pub uninterp spec fn uuid_ok(s: Seq<char>) -> bool;

/// Relies on uuid::Uuid::parse_str: parses a textual UUID, succeeding or
/// failing on the characters of `s` alone.
#[verifier::external_body]
pub(crate) fn parse_uuid(s: &str) -> (r: Option<uuid::Uuid>)
    ensures
        r is Some <==> uuid_ok(s@),
{
    match uuid::Uuid::parse_str(s) {
        Ok(u) => Some(u),
        Err(_) => None,
    }
}

/// One parsed line of the protocol.
pub enum Command {
    Login(Login),
    Message(Message),
    MessageWithMentions(MessageWithMentions),
    AddUser(AddUser),
    RemoveUser(RemoveUser),
    ShowUsers(ShowUsers),
}

/// `%login <identity>`: claims an identity for the connection.
pub struct Login {
    pub id: String,
}

/// A plain chat line, kept verbatim.
pub struct Message {
    pub message: String,
}

/// A chat line opened by `@name ` mentions; the mentions are parsed but do
/// not alter routing.
pub struct MessageWithMentions {
    pub user_names: Vec<String>,
    pub message: String,
}

/// `%add_user <uuid> <kind>`: an administrative command, parsed but inert.
pub struct AddUser {
    pub id: uuid::Uuid,
    pub kind: UserKind,
}

/// `%remove_user <uuid>`: an administrative command, parsed but inert.
pub struct RemoveUser {
    pub id: uuid::Uuid,
}

/// `%show_users`: an administrative command with no payload, parsed but inert.
pub struct ShowUsers;

/// The two kinds a user named by `%add_user` can have.
#[derive(Debug, Clone, Copy, PartialEq, Eq, Structural)]
pub enum UserKind {
    Admin,
    Normal,
}

/// The mathematical shape of a parsed line: each variant carries the
/// character sequences the command was built from.
pub enum ParsedCommand {
    Login { id: Seq<char> },
    Message { text: Seq<char> },
    MessageWithMentions { names: Seq<Seq<char>>, text: Seq<char> },
    AddUser { id: Seq<char>, kind: UserKind },
    RemoveUser { id: Seq<char> },
    ShowUsers,
}

/// `%add_user` payload: a whitespace-delimited UUID token, then the kind.
/// The UUID is checked before the kind, so a line bad on both counts fails
/// with `InvalidUuid`.
pub open spec fn parse_add_user(rest: Seq<char>) -> Result<(Seq<char>, UserKind), Error> {
    let j = first_space(rest) as int;
    if j >= rest.len() {
        Err(Error::MissingArgument)
    } else {
        let tok = rest.take(j);
        let kind_text = rest.skip(j + 1);
        if !uuid_ok(tok) {
            Err(Error::InvalidUuid)
        } else if kind_text == "normal"@ {
            Ok((tok, UserKind::Normal))
        } else if kind_text == "admin"@ {
            Ok((tok, UserKind::Admin))
        } else {
            Err(Error::InvalidUserKind)
        }
    }
}

/// A `%` line after its `%`: the command name runs to the first space (or the
/// end), the rest is the command's payload.
pub open spec fn parse_admin(t: Seq<char>) -> Result<ParsedCommand, Error> {
    let i = first_space(t) as int;
    let name = if i >= t.len() {
        t
    } else {
        t.take(i)
    };
    let rest = if i >= t.len() {
        Seq::<char>::empty()
    } else {
        t.skip(i + 1)
    };
    if name == "login"@ {
        Ok(ParsedCommand::Login { id: trim(rest) })
    } else if name == "add_user"@ {
        match parse_add_user(rest) {
            Ok((id, kind)) => Ok(ParsedCommand::AddUser { id, kind }),
            Err(e) => Err(e),
        }
    } else if name == "remove_user"@ {
        if uuid_ok(rest) {
            Ok(ParsedCommand::RemoveUser { id: rest })
        } else {
            Err(Error::InvalidUuid)
        }
    } else if name == "show_users"@ {
        Ok(ParsedCommand::ShowUsers)
    } else {
        Err(Error::UnknownCommand)
    }
}

/// An `@` line: each leading `@` opens a mentioned name that must be closed
/// by a space; a mention left open when the input ends is an error.  The
/// first character that opens no mention starts the message text, and input
/// that ends right after a closed mention leaves the text empty.
pub open spec fn parse_mentions(s: Seq<char>, acc: Seq<Seq<char>>) -> Result<
    (Seq<Seq<char>>, Seq<char>),
    Error,
>
    decreases s.len(),
{
    if s.len() == 0 {
        Ok((acc, s))
    } else if s[0] != '@' {
        Ok((acc, s))
    } else {
        let t = s.skip(1);
        let i = first_space(t) as int;
        if i >= t.len() {
            Err(Error::MissingUserName)
        } else {
            parse_mentions(t.skip(i + 1), acc.push(t.take(i)))
        }
    }
}

/// What one raw line parses to: exactly one command, or one specific error.
pub open spec fn parse_spec(s: Seq<char>) -> Result<ParsedCommand, Error> {
    if s.len() == 0 {
        Err(Error::MissingCommandName)
    } else if s[0] == '%' {
        parse_admin(s.skip(1))
    } else if s[0] == '@' {
        match parse_mentions(s, Seq::<Seq<char>>::empty()) {
            Ok(pair) => Ok(ParsedCommand::MessageWithMentions { names: pair.0, text: pair.1 }),
            Err(e) => Err(e),
        }
    } else {
        Ok(ParsedCommand::Message { text: s })
    }
}

/// How an executable `Command` realizes its mathematical shape.  A parsed
/// UUID value is opaque, so for the administrative commands the relation
/// records that the token was accepted.
pub open spec fn cmd_matches(c: Command, pc: ParsedCommand) -> bool {
    match pc {
        ParsedCommand::Login { id } => c matches Command::Login(l) && l.id@ == id,
        ParsedCommand::Message { text } => c matches Command::Message(m) && m.message@ == text,
        ParsedCommand::MessageWithMentions { names, text } => c matches Command::MessageWithMentions(
            m,
        ) && m.user_names.deep_view() == names && m.message@ == text,
        ParsedCommand::AddUser { id, kind } => c matches Command::AddUser(a) && a.kind == kind
            && uuid_ok(id),
        ParsedCommand::RemoveUser { id } => c matches Command::RemoveUser(_) && uuid_ok(id),
        ParsedCommand::ShowUsers => c matches Command::ShowUsers(_),
    }
}

proof fn lemma_admin_line(name: Seq<char>, rest: Seq<char>)
    requires
        forall|j: int| 0 <= j < name.len() ==> name[j] != ' ',
    ensures
        parse_spec(seq!['%'] + name + seq![' '] + rest) == parse_admin(name + seq![' '] + rest),
        first_space(name + seq![' '] + rest) == name.len(),
        first_space(name + seq![' '] + rest) < (name + seq![' '] + rest).len(),
        (name + seq![' '] + rest).take(name.len() as int) == name,
        (name + seq![' '] + rest).skip(name.len() as int + 1) == rest,
{
    let s = seq!['%'] + name + seq![' '] + rest;
    let t = name + seq![' '] + rest;
    assert(s.len() > 0);
    assert(s[0] == '%');
    assert(s.skip(1) =~= t);
    assert(t =~= name + (seq![' '] + rest));
    assert((seq![' '] + rest)[0] == ' ');
    crate::strutil::lemma_first_space_append(name, seq![' '] + rest);
    assert(t.take(name.len() as int) =~= name);
    assert(t.skip(name.len() as int + 1) =~= rest);
}

/// Every `%login <text>` line parses to a login whose identity is the
/// payload trimmed of surrounding whitespace, whatever the payload holds.
pub proof fn lemma_login_line(text: Seq<char>)
    ensures
        parse_spec("%login "@ + text) == Ok::<ParsedCommand, Error>(
            ParsedCommand::Login { id: trim(text) },
        ),
{
    reveal_strlit("%login ");
    reveal_strlit("login");
    lemma_admin_line("login"@, text);
    assert("%login "@ + text =~= seq!['%'] + "login"@ + seq![' '] + text);
}

/// A line opening with neither `%` nor `@` parses to a plain message holding
/// the whole line verbatim, internal whitespace included.
pub proof fn lemma_plain_message(s: Seq<char>)
    requires
        s.len() > 0,
        s[0] != '%',
        s[0] != '@',
    ensures
        parse_spec(s) == Ok::<ParsedCommand, Error>(ParsedCommand::Message { text: s }),
{
}

/// An empty line fails with `MissingCommandName` and no other error.
pub proof fn lemma_empty_line()
    ensures
        parse_spec(Seq::<char>::empty()) == Err::<ParsedCommand, Error>(Error::MissingCommandName),
{
}

/// A `%add_user` line whose UUID token is malformed fails with
/// `InvalidUuid`, whatever kind text follows.
pub proof fn lemma_add_user_bad_uuid(tok: Seq<char>, kind: Seq<char>)
    requires
        forall|j: int| 0 <= j < tok.len() ==> tok[j] != ' ',
        !uuid_ok(tok),
    ensures
        parse_spec("%add_user "@ + tok + seq![' '] + kind) == Err::<ParsedCommand, Error>(
            Error::InvalidUuid,
        ),
{
    reveal_strlit("%add_user ");
    reveal_strlit("add_user");
    reveal_strlit("login");
    let rest = tok + seq![' '] + kind;
    lemma_admin_line("add_user"@, rest);
    assert("%add_user "@ + tok + seq![' '] + kind =~= seq!['%'] + "add_user"@ + seq![' '] + rest);
    assert(rest =~= tok + (seq![' '] + kind));
    assert((seq![' '] + kind)[0] == ' ');
    crate::strutil::lemma_first_space_append(tok, seq![' '] + kind);
    assert(rest.take(tok.len() as int) =~= tok);
}

/// A `%add_user` line whose UUID is well formed but whose kind text is
/// neither `normal` nor `admin` fails with `InvalidUserKind`.
pub proof fn lemma_add_user_bad_kind(tok: Seq<char>, kind: Seq<char>)
    requires
        forall|j: int| 0 <= j < tok.len() ==> tok[j] != ' ',
        uuid_ok(tok),
        kind != "normal"@,
        kind != "admin"@,
    ensures
        parse_spec("%add_user "@ + tok + seq![' '] + kind) == Err::<ParsedCommand, Error>(
            Error::InvalidUserKind,
        ),
{
    reveal_strlit("%add_user ");
    reveal_strlit("add_user");
    reveal_strlit("login");
    let rest = tok + seq![' '] + kind;
    lemma_admin_line("add_user"@, rest);
    assert("%add_user "@ + tok + seq![' '] + kind =~= seq!['%'] + "add_user"@ + seq![' '] + rest);
    assert(rest =~= tok + (seq![' '] + kind));
    assert((seq![' '] + kind)[0] == ' ');
    crate::strutil::lemma_first_space_append(tok, seq![' '] + kind);
    assert(rest.take(tok.len() as int) =~= tok);
    assert(rest.skip(tok.len() as int + 1) =~= kind);
}

/// A `%add_user` line whose payload holds no space at all never reaches the
/// UUID check: it fails with `MissingArgument`.
pub proof fn lemma_add_user_missing_kind(tok: Seq<char>)
    requires
        forall|j: int| 0 <= j < tok.len() ==> tok[j] != ' ',
    ensures
        parse_spec("%add_user "@ + tok) == Err::<ParsedCommand, Error>(Error::MissingArgument),
{
    reveal_strlit("%add_user ");
    reveal_strlit("add_user");
    reveal_strlit("login");
    lemma_admin_line("add_user"@, tok);
    assert("%add_user "@ + tok =~= seq!['%'] + "add_user"@ + seq![' '] + tok);
    crate::strutil::lemma_first_space_at(tok, tok.len() as int);
}

/// A `%remove_user` line whose payload is not a UUID fails with
/// `InvalidUuid`.
pub proof fn lemma_remove_user_bad_uuid(payload: Seq<char>)
    requires
        !uuid_ok(payload),
    ensures
        parse_spec("%remove_user "@ + payload) == Err::<ParsedCommand, Error>(Error::InvalidUuid),
{
    reveal_strlit("%remove_user ");
    reveal_strlit("remove_user");
    reveal_strlit("login");
    reveal_strlit("add_user");
    lemma_admin_line("remove_user"@, payload);
    assert("%remove_user "@ + payload =~= seq!['%'] + "remove_user"@ + seq![' '] + payload);
}

/// A `%` line whose command name is none of the four known ones fails with
/// `UnknownCommand`, whatever follows the name.
pub proof fn lemma_unknown_command(name: Seq<char>, rest: Seq<char>)
    requires
        forall|j: int| 0 <= j < name.len() ==> name[j] != ' ',
        name != "login"@,
        name != "add_user"@,
        name != "remove_user"@,
        name != "show_users"@,
    ensures
        parse_spec(seq!['%'] + name + seq![' '] + rest) == Err::<ParsedCommand, Error>(
            Error::UnknownCommand,
        ),
{
    lemma_admin_line(name, rest);
}

/// An `@` line with no space at all cannot close its first mentioned name:
/// it fails with `MissingUserName`.
pub proof fn lemma_missing_user_name(s: Seq<char>)
    requires
        s.len() > 0,
        s[0] == '@',
        forall|j: int| 0 <= j < s.len() ==> s[j] != ' ',
    ensures
        parse_spec(s) == Err::<ParsedCommand, Error>(Error::MissingUserName),
{
    let t = s.skip(1);
    assert forall|j: int| 0 <= j < t.len() implies t[j] != ' ' by {
        assert(t[j] == s[j + 1]);
    }
    crate::strutil::lemma_first_space_at(t, t.len() as int);
}

impl Login {
    /// Builds the login command: the identity is the payload trimmed of
    /// leading and trailing whitespace, and may be empty.
    pub fn new(input: &str) -> (r: Result<Login, Error>)
        ensures
            r matches Ok(l) && l.id@ == trim(input@),
    {
        Ok(Login { id: trim_str(input) })
    }
}

impl Message {
    /// Builds a plain chat message holding `message` verbatim.
    pub fn new(message: String) -> (r: Message)
        ensures
            r.message == message,
    {
        Message { message }
    }
}

impl MessageWithMentions {
    /// Parses the leading `@name ` mentions of `input` and keeps the rest of
    /// the line as the message text; a line ending right after a closed
    /// mention carries an empty text.
    pub fn new(input: &str) -> (r: Result<MessageWithMentions, Error>)
        ensures
            match parse_mentions(input@, Seq::<Seq<char>>::empty()) {
                Ok(pair) => r matches Ok(m) && m.user_names.deep_view() == pair.0 && m.message@
                    == pair.1,
                Err(e) => r matches Err(e2) && e2 == e,
            },
    {
        let n = input.unicode_len();
        let mut pos: usize = 0;
        let mut names: Vec<String> = Vec::new();
        proof {
            assert(input@.skip(0) =~= input@);
            assert(names.deep_view() =~= Seq::<Seq<char>>::empty());
        }
        loop
            invariant_except_break
                pos <= n,
                n == input@.len(),
                parse_mentions(input@, Seq::<Seq<char>>::empty()) == parse_mentions(
                    input@.skip(pos as int),
                    names.deep_view(),
                ),
            ensures
                pos < n,
                n == input@.len(),
                input@[pos as int] != '@',
                parse_mentions(input@, Seq::<Seq<char>>::empty()) == parse_mentions(
                    input@.skip(pos as int),
                    names.deep_view(),
                ),
            decreases n - pos,
        {
            if pos >= n {
                proof {
                    assert(input@.skip(pos as int) =~= Seq::<char>::empty());
                }
                return Ok(MessageWithMentions { user_names: names, message: String::new() });
            }
            let c = input.get_char(pos);
            if c != '@' {
                break ;
            }
            let sp = find_space_from(input, pos + 1);
            proof {
                let suffix = input@.skip(pos as int);
                assert(suffix.len() == n - pos);
                assert(suffix[0] == input@[pos as int]);
                assert(suffix.skip(1) =~= input@.skip(pos + 1));
            }
            if sp == n {
                return Err(Error::MissingUserName);
            }
            let name = input.substring_char(pos + 1, sp);
            let ghost old_names = names.deep_view();
            let ghost old_pos = pos as int;
            names.push(name.to_owned());
            proof {
                let suffix = input@.skip(old_pos);
                let t = suffix.skip(1);
                assert(t =~= input@.skip(old_pos + 1));
                let i = first_space(t) as int;
                assert(i == sp - old_pos - 1);
                assert(i < t.len());
                assert(t.take(i) =~= input@.subrange(old_pos + 1, sp as int));
                assert(t.skip(i + 1) =~= input@.skip(sp + 1));
                assert(names.deep_view() =~~= old_names.push(name@));
                assert(parse_mentions(suffix, old_names) == parse_mentions(
                    input@.skip(sp + 1),
                    names.deep_view(),
                ));
            }
            pos = sp + 1;
        }
        let message = input.substring_char(pos, n);
        proof {
            let suffix = input@.skip(pos as int);
            assert(suffix.len() > 0);
            assert(suffix[0] == input@[pos as int]);
            assert(message@ =~= suffix);
        }
        Ok(MessageWithMentions { user_names: names, message: message.to_owned() })
    }
}

impl AddUser {
    /// Parses the `%add_user` payload: a UUID token closed by a space, then
    /// the kind, which must be `normal` or `admin`.
    pub fn new(input: &str) -> (r: Result<AddUser, Error>)
        ensures
            match parse_add_user(input@) {
                Ok(pair) => r matches Ok(a) && a.kind == pair.1,
                Err(e) => r matches Err(e2) && e2 == e,
            },
    {
        let n = input.unicode_len();
        let sp = find_space_from(input, 0);
        proof {
            assert(input@.skip(0) =~= input@);
        }
        if sp == n {
            return Err(Error::MissingArgument);
        }
        let tok = input.substring_char(0, sp);
        let kind_text = input.substring_char(sp + 1, n);
        proof {
            assert(input@.take(sp as int) =~= input@.subrange(0, sp as int));
            assert(input@.skip(sp + 1) =~= input@.subrange(sp + 1, n as int));
        }
        match parse_uuid(tok) {
            None => Err(Error::InvalidUuid),
            Some(u) => {
                if str_eq(kind_text, "normal") {
                    Ok(AddUser { id: u, kind: UserKind::Normal })
                } else if str_eq(kind_text, "admin") {
                    Ok(AddUser { id: u, kind: UserKind::Admin })
                } else {
                    Err(Error::InvalidUserKind)
                }
            },
        }
    }
}

impl RemoveUser {
    /// Parses the `%remove_user` payload, which must be a UUID in whole.
    pub fn new(input: &str) -> (r: Result<RemoveUser, Error>)
        ensures
            uuid_ok(input@) ==> r is Ok,
            !uuid_ok(input@) ==> (r matches Err(e) && e == Error::InvalidUuid),
    {
        match parse_uuid(input) {
            Some(u) => Ok(RemoveUser { id: u }),
            None => Err(Error::InvalidUuid),
        }
    }
}

impl ShowUsers {
    /// Builds the payload-free `%show_users` command.
    pub fn new() -> ShowUsers {
        ShowUsers
    }
}

impl Command {
    /// Parses one raw line.  The result is exactly what `parse_spec` says of
    /// the line's characters: the matching command, or the specific error.
    pub fn new(input: &str) -> (r: Result<Command, Error>)
        ensures
            match parse_spec(input@) {
                Ok(pc) => r matches Ok(c) && cmd_matches(c, pc),
                Err(e) => r matches Err(e2) && e2 == e,
            },
    {
        let n = input.unicode_len();
        if n == 0 {
            return Err(Error::MissingCommandName);
        }
        let c0 = input.get_char(0);
        if c0 == '%' {
            let ghost t = input@.skip(1);
            let sp = find_space_from(input, 1);
            proof {
                assert(t.len() == n - 1);
                assert forall|j: int| 0 <= j < sp - 1 implies t[j] != ' ' by {
                    assert(t[j] == input@[j + 1]);
                }
                assert(sp - 1 < t.len() ==> t[sp - 1] == input@[sp as int]);
                crate::strutil::lemma_first_space_at(t, sp - 1);
                assert(input@.subrange(1, sp as int) =~= t.take(sp - 1));
                if sp < n {
                    assert(t.skip(sp as int) =~= input@.skip(sp + 1));
                }
                if sp == n {
                    assert(t =~= input@.subrange(1, sp as int));
                }
            }
            let rest_from = if sp < n {
                sp + 1
            } else {
                n
            };
            let rest = input.substring_char(rest_from, n);
            proof {
                if sp < n {
                    assert(rest@ =~= t.skip(sp as int));
                } else {
                    assert(rest@ =~= Seq::<char>::empty());
                }
            }
            if substr_eq(input, 1, sp, "login") {
                match Login::new(rest) {
                    Ok(l) => Ok(Command::Login(l)),
                    Err(e) => Err(e),
                }
            } else if substr_eq(input, 1, sp, "add_user") {
                match AddUser::new(rest) {
                    Ok(a) => Ok(Command::AddUser(a)),
                    Err(e) => Err(e),
                }
            } else if substr_eq(input, 1, sp, "remove_user") {
                match RemoveUser::new(rest) {
                    Ok(x) => Ok(Command::RemoveUser(x)),
                    Err(e) => Err(e),
                }
            } else if substr_eq(input, 1, sp, "show_users") {
                Ok(Command::ShowUsers(ShowUsers::new()))
            } else {
                Err(Error::UnknownCommand)
            }
        } else if c0 == '@' {
            match MessageWithMentions::new(input) {
                Ok(m) => Ok(Command::MessageWithMentions(m)),
                Err(e) => Err(e),
            }
        } else {
            Ok(Command::Message(Message::new(input.to_owned())))
        }
    }
}

} // verus!
