//! Wire-format grammar of one protocol line.
//!
//! A line is scanned left to right over its raw bytes: an optional prefix
//! introduced by `:` names the source, the next run of non-space bytes is
//! the command token, and the remainder splits into parameters, where a
//! parameter introduced by `:` runs verbatim to the end of the line.
//!
//! The spec model works on `Seq<u8>`; each byte stands for the character
//! with the same code point, which `str_of` makes explicit.

use vstd::prelude::*;

verus! {

use vstd::string::StringSliceAdditionalSpecFns;

/// The space byte, the only token separator inside a line.
pub const SPACE: u8 = 32;

/// Carriage return, part of the line terminator.
pub const CR: u8 = 13;

/// Line feed, part of the line terminator.
pub const LF: u8 = 10;

/// The marker byte `:` that introduces a prefix or a trailing parameter.
pub const COLON: u8 = 58;

/// A byte that separates tokens: space or a line-termination byte.
pub open spec fn is_sep(b: u8) -> bool {
    b == SPACE || b == CR || b == LF
}

/// A byte that terminates the line.
pub open spec fn is_line_end(b: u8) -> bool {
    b == CR || b == LF
}

/// The text a run of bytes stands for: each byte read as the character
/// with the same code point.
pub open spec fn str_of(s: Seq<u8>) -> Seq<char> {
    s.map_values(|b: u8| b as char)
}

/// The maximal separator-free prefix of `s`: one token.
pub open spec fn take_token(s: Seq<u8>) -> Seq<u8>
    decreases s.len(),
{
    if s.len() == 0 || is_sep(s[0]) {
        Seq::empty()
    } else {
        seq![s[0]] + take_token(s.drop_first())
    }
}

/// `s` without its leading separators.
pub open spec fn drop_seps(s: Seq<u8>) -> Seq<u8>
    decreases s.len(),
{
    if s.len() > 0 && is_sep(s[0]) {
        drop_seps(s.drop_first())
    } else {
        s
    }
}

/// The prefix of `s` up to the line terminator: the verbatim text of a
/// trailing parameter, embedded spaces included.
pub open spec fn take_line(s: Seq<u8>) -> Seq<u8>
    decreases s.len(),
{
    if s.len() == 0 || is_line_end(s[0]) {
        Seq::empty()
    } else {
        seq![s[0]] + take_line(s.drop_first())
    }
}

/// `take_token(s)` is exactly the bytes before the first separator.
proof fn lemma_take_token_shape(s: Seq<u8>, k: int)
    requires
        0 <= k <= s.len(),
        forall|i: int| 0 <= i < k ==> !is_sep(#[trigger] s[i]),
        k == s.len() || is_sep(s[k]),
    ensures
        take_token(s) =~= s.take(k),
    decreases k,
{
    if k == 0 {
    } else {
        lemma_take_token_shape(s.drop_first(), k - 1);
        assert(s.drop_first().take(k - 1) =~= s.take(k).drop_first());
    }
}

/// `drop_seps(s)` is exactly the suffix after the leading separators.
proof fn lemma_drop_seps_shape(s: Seq<u8>, k: int)
    requires
        0 <= k <= s.len(),
        forall|i: int| 0 <= i < k ==> is_sep(#[trigger] s[i]),
        k == s.len() || !is_sep(s[k]),
    ensures
        drop_seps(s) =~= s.skip(k),
    decreases k,
{
    if k == 0 {
    } else {
        lemma_drop_seps_shape(s.drop_first(), k - 1);
        assert(s.drop_first().skip(k - 1) =~= s.skip(k));
    }
}

/// `take_line(s)` is exactly the bytes before the first line-end byte.
proof fn lemma_take_line_shape(s: Seq<u8>, k: int)
    requires
        0 <= k <= s.len(),
        forall|i: int| 0 <= i < k ==> !is_line_end(#[trigger] s[i]),
        k == s.len() || is_line_end(s[k]),
    ensures
        take_line(s) =~= s.take(k),
    decreases k,
{
    if k == 0 {
    } else {
        lemma_take_line_shape(s.drop_first(), k - 1);
        assert(s.drop_first().take(k - 1) =~= s.take(k).drop_first());
    }
}

/// A token is never longer than the bytes it was scanned from.
proof fn lemma_take_token_le(s: Seq<u8>)
    ensures
        take_token(s).len() <= s.len(),
    decreases s.len(),
{
    if s.len() > 0 && !is_sep(s[0]) {
        lemma_take_token_le(s.drop_first());
    }
}

/// Dropping separators shortens the bytes and leaves a non-separator
/// (or nothing) in front.
proof fn lemma_drop_seps_le(s: Seq<u8>)
    ensures
        drop_seps(s).len() <= s.len(),
        drop_seps(s).len() > 0 ==> !is_sep(drop_seps(s)[0]),
    decreases s.len(),
{
    if s.len() > 0 && is_sep(s[0]) {
        lemma_drop_seps_le(s.drop_first());
    }
}

/// The parameter section of a line, split into its parameters: separators
/// are skipped, a parameter introduced by the marker takes the rest of the
/// line verbatim and ends the scan, and any other parameter is one token.
pub open spec fn spec_params(s: Seq<u8>) -> Seq<Seq<u8>>
    decreases s.len(),
    via spec_params_decreases
{
    let t = drop_seps(s);
    if t.len() == 0 {
        Seq::empty()
    } else if t[0] == COLON {
        seq![take_line(t.drop_first())]
    } else {
        seq![take_token(t)] + spec_params(t.skip(take_token(t).len() as int))
    }
}

#[via_fn]
proof fn spec_params_decreases(s: Seq<u8>) {
    let t = drop_seps(s);
    lemma_drop_seps_le(s);
    if t.len() > 0 && t[0] != COLON {
        lemma_take_token_le(t);
        assert(take_token(t) == seq![t[0]] + take_token(t.drop_first()));
    }
}

/// The text of each parameter in turn.
pub open spec fn strs_of(ts: Seq<Seq<u8>>) -> Seq<Seq<char>> {
    ts.map_values(|t: Seq<u8>| str_of(t))
}

/// A scan looks the same from anywhere inside a separator run.
proof fn lemma_spec_params_seps(s: Seq<u8>)
    ensures
        spec_params(s) == spec_params(drop_seps(s)),
{
    lemma_drop_seps_le(s);
    assert(drop_seps(drop_seps(s)) == drop_seps(s));
}

/// The closed classification of a command token: the well-known textual
/// commands, the well-known three-digit numeric replies, the sentinel for
/// a closed connection, and an escape variant that carries any other token
/// verbatim.
#[derive(Debug, PartialEq, Eq)]
pub enum Command {
    Notice,
    RplWelcome,
    RplYourHost,
    RplCreated,
    RplMyInfo,
    RplIsSupport,
    RplUModeIs,
    RplMotdStart,
    RplMotd,
    RplLUserClient,
    RplLUserChannels,
    RplLUserMe,
    RplNamReply,
    RplEndOfNames,
    PrivMsg,
    Join,
    AbortClient,
    Ping,
    Unimplemented(String),
}

/// The mathematical value of a [`Command`]: the escape variant carries the
/// token's text.
pub enum CommandView {
    Notice,
    RplWelcome,
    RplYourHost,
    RplCreated,
    RplMyInfo,
    RplIsSupport,
    RplUModeIs,
    RplMotdStart,
    RplMotd,
    RplLUserClient,
    RplLUserChannels,
    RplLUserMe,
    RplNamReply,
    RplEndOfNames,
    PrivMsg,
    Join,
    AbortClient,
    Ping,
    Unimplemented(Seq<char>),
}

impl View for Command {
    type V = CommandView;

    open spec fn view(&self) -> CommandView {
        match self {
            Command::Notice => CommandView::Notice,
            Command::RplWelcome => CommandView::RplWelcome,
            Command::RplYourHost => CommandView::RplYourHost,
            Command::RplCreated => CommandView::RplCreated,
            Command::RplMyInfo => CommandView::RplMyInfo,
            Command::RplIsSupport => CommandView::RplIsSupport,
            Command::RplUModeIs => CommandView::RplUModeIs,
            Command::RplMotdStart => CommandView::RplMotdStart,
            Command::RplMotd => CommandView::RplMotd,
            Command::RplLUserClient => CommandView::RplLUserClient,
            Command::RplLUserChannels => CommandView::RplLUserChannels,
            Command::RplLUserMe => CommandView::RplLUserMe,
            Command::RplNamReply => CommandView::RplNamReply,
            Command::RplEndOfNames => CommandView::RplEndOfNames,
            Command::PrivMsg => CommandView::PrivMsg,
            Command::Join => CommandView::Join,
            Command::AbortClient => CommandView::AbortClient,
            Command::Ping => CommandView::Ping,
            Command::Unimplemented(s) => CommandView::Unimplemented(s@),
        }
    }
}

/// How a command token classifies: matched case-sensitively against the
/// known textual commands and numeric replies; an empty token is the abort
/// sentinel of a closed connection; anything else escapes verbatim.
pub open spec fn spec_command_of(t: Seq<char>) -> CommandView {
    if t == "NOTICE"@ {
        CommandView::Notice
    } else if t == "001"@ {
        CommandView::RplWelcome
    } else if t == "002"@ {
        CommandView::RplYourHost
    } else if t == "003"@ {
        CommandView::RplCreated
    } else if t == "004"@ {
        CommandView::RplMyInfo
    } else if t == "005"@ {
        CommandView::RplIsSupport
    } else if t == "221"@ {
        CommandView::RplUModeIs
    } else if t == "375"@ {
        CommandView::RplMotdStart
    } else if t == "372"@ {
        CommandView::RplMotd
    } else if t == "251"@ {
        CommandView::RplLUserClient
    } else if t == "254"@ {
        CommandView::RplLUserChannels
    } else if t == "255"@ {
        CommandView::RplLUserMe
    } else if t == "353"@ {
        CommandView::RplNamReply
    } else if t == "366"@ {
        CommandView::RplEndOfNames
    } else if t == "PRIVMSG"@ {
        CommandView::PrivMsg
    } else if t == "JOIN"@ {
        CommandView::Join
    } else if t == "PING"@ {
        CommandView::Ping
    } else if t.len() == 0 {
        CommandView::AbortClient
    } else {
        CommandView::Unimplemented(t)
    }
}

/// Character-for-character equality of two text slices.
fn str_eq(a: &str, b: &str) -> (r: bool)
    ensures
        r == (a@ == b@),
{
    let ab = a.as_bytes();
    let bb = b.as_bytes();
    if ab.len() != bb.len() {
        return false;
    }
    let mut i: usize = 0;
    while i < ab.len()
        invariant
            0 <= i <= ab@.len(),
            ab@.len() == bb@.len(),
            ab@ == a.spec_bytes(),
            bb@ == b.spec_bytes(),
            forall|k: int| 0 <= k < i ==> ab@[k] == bb@[k],
        decreases ab@.len() - i,
    {
        if ab[i] != bb[i] {
            return false;
        }
        i = i + 1;
    }
    proof {
        assert(ab@ =~= bb@);
        vstd::utf8::encode_utf8_decode_utf8(a@);
        vstd::utf8::encode_utf8_decode_utf8(b@);
    }
    true
}

/// Classifies one command token, never failing: an unrecognized token is
/// kept verbatim in the escape variant.
pub fn match_command(command: String) -> (c: Command)
    ensures
        c@ == spec_command_of(command@),
{
    let s = command.as_str();
    if str_eq(s, "NOTICE") {
        Command::Notice
    } else if str_eq(s, "001") {
        Command::RplWelcome
    } else if str_eq(s, "002") {
        Command::RplYourHost
    } else if str_eq(s, "003") {
        Command::RplCreated
    } else if str_eq(s, "004") {
        Command::RplMyInfo
    } else if str_eq(s, "005") {
        Command::RplIsSupport
    } else if str_eq(s, "221") {
        Command::RplUModeIs
    } else if str_eq(s, "375") {
        Command::RplMotdStart
    } else if str_eq(s, "372") {
        Command::RplMotd
    } else if str_eq(s, "251") {
        Command::RplLUserClient
    } else if str_eq(s, "254") {
        Command::RplLUserChannels
    } else if str_eq(s, "255") {
        Command::RplLUserMe
    } else if str_eq(s, "353") {
        Command::RplNamReply
    } else if str_eq(s, "366") {
        Command::RplEndOfNames
    } else if str_eq(s, "PRIVMSG") {
        Command::PrivMsg
    } else if str_eq(s, "JOIN") {
        Command::Join
    } else if str_eq(s, "PING") {
        Command::Ping
    } else if s.is_empty() {
        Command::AbortClient
    } else {
        Command::Unimplemented(command)
    }
}

/// The tokens the classification recognizes.
pub open spec fn spec_known_token(t: Seq<char>) -> bool {
    ||| t == "NOTICE"@
    ||| t == "001"@
    ||| t == "002"@
    ||| t == "003"@
    ||| t == "004"@
    ||| t == "005"@
    ||| t == "221"@
    ||| t == "375"@
    ||| t == "372"@
    ||| t == "251"@
    ||| t == "254"@
    ||| t == "255"@
    ||| t == "353"@
    ||| t == "366"@
    ||| t == "PRIVMSG"@
    ||| t == "JOIN"@
    ||| t == "PING"@
}

/// Classification law: every known token, the three-digit numeric replies
/// among them, yields its own variant and never the escape; an empty token
/// is the abort sentinel; and any other token yields the escape variant
/// carrying the token unchanged, so the escape's text round-trips to the
/// input.
pub proof fn lemma_command_classification(t: Seq<char>)
    ensures
        t == "NOTICE"@ ==> spec_command_of(t) is Notice,
        t == "001"@ ==> spec_command_of(t) is RplWelcome,
        t == "002"@ ==> spec_command_of(t) is RplYourHost,
        t == "003"@ ==> spec_command_of(t) is RplCreated,
        t == "004"@ ==> spec_command_of(t) is RplMyInfo,
        t == "005"@ ==> spec_command_of(t) is RplIsSupport,
        t == "221"@ ==> spec_command_of(t) is RplUModeIs,
        t == "375"@ ==> spec_command_of(t) is RplMotdStart,
        t == "372"@ ==> spec_command_of(t) is RplMotd,
        t == "251"@ ==> spec_command_of(t) is RplLUserClient,
        t == "254"@ ==> spec_command_of(t) is RplLUserChannels,
        t == "255"@ ==> spec_command_of(t) is RplLUserMe,
        t == "353"@ ==> spec_command_of(t) is RplNamReply,
        t == "366"@ ==> spec_command_of(t) is RplEndOfNames,
        t == "PRIVMSG"@ ==> spec_command_of(t) is PrivMsg,
        t == "JOIN"@ ==> spec_command_of(t) is Join,
        t == "PING"@ ==> spec_command_of(t) is Ping,
        spec_known_token(t) ==> !(spec_command_of(t) is Unimplemented) && !(spec_command_of(
            t,
        ) is AbortClient),
        !spec_known_token(t) && t.len() > 0 ==> spec_command_of(t) == CommandView::Unimplemented(t),
        t.len() == 0 ==> spec_command_of(t) is AbortClient,
{
    reveal_strlit("NOTICE");
    reveal_strlit("001");
    reveal_strlit("002");
    reveal_strlit("003");
    reveal_strlit("004");
    reveal_strlit("005");
    reveal_strlit("221");
    reveal_strlit("375");
    reveal_strlit("372");
    reveal_strlit("251");
    reveal_strlit("254");
    reveal_strlit("255");
    reveal_strlit("353");
    reveal_strlit("366");
    reveal_strlit("PRIVMSG");
    reveal_strlit("JOIN");
    reveal_strlit("PING");
    assert("NOTICE"@ =~= seq!['N', 'O', 'T', 'I', 'C', 'E']);
    assert("001"@ =~= seq!['0', '0', '1']);
    assert("002"@ =~= seq!['0', '0', '2']);
    assert("003"@ =~= seq!['0', '0', '3']);
    assert("004"@ =~= seq!['0', '0', '4']);
    assert("005"@ =~= seq!['0', '0', '5']);
    assert("221"@ =~= seq!['2', '2', '1']);
    assert("375"@ =~= seq!['3', '7', '5']);
    assert("372"@ =~= seq!['3', '7', '2']);
    assert("251"@ =~= seq!['2', '5', '1']);
    assert("254"@ =~= seq!['2', '5', '4']);
    assert("255"@ =~= seq!['2', '5', '5']);
    assert("353"@ =~= seq!['3', '5', '3']);
    assert("366"@ =~= seq!['3', '6', '6']);
    assert("PRIVMSG"@ =~= seq!['P', 'R', 'I', 'V', 'M', 'S', 'G']);
    assert("JOIN"@ =~= seq!['J', 'O', 'I', 'N']);
    assert("PING"@ =~= seq!['P', 'I', 'N', 'G']);
}

/// One parsed protocol line: the optional origin prefix, the classified
/// command, and the parameters in wire order. A trailing parameter stands
/// as the final entry, embedded spaces preserved.
#[derive(Debug)]
pub struct Message {
    pub source: Option<String>,
    pub command: Command,
    pub parameters: Vec<String>,
}

/// The mathematical value of a [`Message`].
pub struct MessageView {
    pub source: Option<Seq<char>>,
    pub command: CommandView,
    pub parameters: Seq<Seq<char>>,
}

impl View for Message {
    type V = MessageView;

    open spec fn view(&self) -> MessageView {
        MessageView {
            source: match self.source {
                Some(s) => Some(s@),
                None => None,
            },
            command: self.command@,
            parameters: self.parameters@.map_values(|p: String| p@),
        }
    }
}

/// The defensive failure of the parser: a line whose prefix marker is not
/// followed by any command token cannot be classified.
#[derive(Debug, Clone, Copy, PartialEq, Eq)]
pub enum ParseError {
    MissingCommand,
}

/// The line opens with the prefix marker.
pub open spec fn has_prefix(raw: Seq<u8>) -> bool {
    raw.len() > 0 && raw[0] == COLON
}

/// The source bytes of a prefixed line: everything after the marker up to
/// the next space.
pub open spec fn spec_source(raw: Seq<u8>) -> Seq<u8> {
    take_token(raw.drop_first())
}

/// The line with its prefix (marker and source) consumed.
pub open spec fn spec_after_source(raw: Seq<u8>) -> Seq<u8> {
    if has_prefix(raw) {
        raw.skip(1 + spec_source(raw).len() as int)
    } else {
        raw
    }
}

/// The command token: the first run of non-space bytes after the prefix.
pub open spec fn spec_command_token(raw: Seq<u8>) -> Seq<u8> {
    take_token(drop_seps(spec_after_source(raw)))
}

/// The unscanned remainder of the line once the command token is consumed:
/// the parameter section.
pub open spec fn spec_params_input(raw: Seq<u8>) -> Seq<u8> {
    drop_seps(spec_after_source(raw)).skip(spec_command_token(raw).len() as int)
}

/// The parameters of the line, in wire order.
pub open spec fn spec_parameters(raw: Seq<u8>) -> Seq<Seq<u8>> {
    spec_params(spec_params_input(raw))
}

/// A malformed line: it carries a prefix but no command token after it.
pub open spec fn headless(raw: Seq<u8>) -> bool {
    has_prefix(raw) && spec_command_token(raw).len() == 0
}

/// What a successful parse returns: the prefix text (marker and separating
/// space removed) when one is present, the classified command token, and
/// the parameter texts in wire order. A line of zero meaningful bytes has
/// no source, no parameters, and the abort sentinel as its command.
pub open spec fn parse_ok(raw: Seq<u8>, m: MessageView) -> bool {
    &&& m.source == if has_prefix(raw) {
        Some(str_of(spec_source(raw)))
    } else {
        None::<Seq<char>>
    }
    &&& m.command == spec_command_of(str_of(spec_command_token(raw)))
    &&& m.parameters == strs_of(spec_parameters(raw))
}

/// Relies on `String::push`: appends exactly one character at the end.
#[verifier::external_body]
fn push_char(s: &mut String, c: char)
    ensures
        final(s)@ == old(s)@ + seq![c],
{
    s.push(c);
}

/// Index of the first non-separator byte at or after `start`.
fn skip_separators(raw: &[u8], start: usize) -> (j: usize)
    requires
        start <= raw@.len(),
    ensures
        start <= j <= raw@.len(),
        raw@.skip(j as int) =~= drop_seps(raw@.skip(start as int)),
        j < raw@.len() ==> !is_sep(raw@[j as int]),
{
    let mut j = start;
    while j < raw.len() && (raw[j] == SPACE || raw[j] == CR || raw[j] == LF)
        invariant
            start <= j <= raw@.len(),
            forall|i: int| start <= i < j ==> is_sep(#[trigger] raw@[i]),
        decreases raw@.len() - j,
    {
        j = j + 1;
    }
    proof {
        lemma_drop_seps_shape(raw@.skip(start as int), j - start);
        assert(raw@.skip(start as int).skip(j - start) =~= raw@.skip(j as int));
    }
    j
}

/// Scans one parameter from `start`: up to the next separator when
/// `stop_on_space` holds, else verbatim up to the line terminator.
pub fn consume_string(raw: &[u8], start: usize, stop_on_space: bool) -> (res: (String, usize))
    requires
        start <= raw@.len(),
    ensures
        ({
            let tok = if stop_on_space {
                take_token(raw@.skip(start as int))
            } else {
                take_line(raw@.skip(start as int))
            };
            &&& res.0@ == str_of(tok)
            &&& res.1 == start + tok.len()
            &&& start <= res.1 <= raw@.len()
        }),
{
    let ghost s0 = raw@.skip(start as int);
    let mut j = start;
    let mut out = String::new();
    while j < raw.len() && !(raw[j] == CR || raw[j] == LF || (stop_on_space && raw[j] == SPACE))
        invariant
            start <= j <= raw@.len(),
            s0 == raw@.skip(start as int),
            forall|i: int| start <= i < j ==> !(stop_on_space && is_sep(#[trigger] raw@[i]))
                && !is_line_end(raw@[i]),
            out@ =~= str_of(s0.take(j - start)),
        decreases raw@.len() - j,
    {
        let b = raw[j];
        push_char(&mut out, b as char);
        proof {
            assert(s0.take(j + 1 - start) =~= s0.take(j - start).push(s0[j - start]));
            assert(str_of(s0.take(j + 1 - start)) =~= str_of(s0.take(j - start)) + seq![
                s0[j - start] as char,
            ]);
        }
        j = j + 1;
    }
    proof {
        if stop_on_space {
            assert(forall|i: int| 0 <= i < j - start ==> !is_sep(#[trigger] s0[i]));
            lemma_take_token_shape(s0, j - start);
        } else {
            assert(forall|i: int| 0 <= i < j - start ==> !is_line_end(#[trigger] s0[i]));
            lemma_take_line_shape(s0, j - start);
        }
    }
    (out, j)
}

/// Scans the source or command token from `start`: the run of bytes up to
/// the next separator.
pub fn consume_attribute(raw: &[u8], start: usize) -> (res: (String, usize))
    requires
        start <= raw@.len(),
    ensures
        res.0@ == str_of(take_token(raw@.skip(start as int))),
        res.1 == start + take_token(raw@.skip(start as int)).len(),
        start <= res.1 <= raw@.len(),
{
    consume_string(raw, start, true)
}

/// Splits the parameter section beginning at `start` into its parameters,
/// in order: space-separated tokens, or one verbatim trailing parameter
/// introduced by the marker.
pub fn parse_parameters(raw: &[u8], start: usize) -> (params: Vec<String>)
    requires
        start <= raw@.len(),
    ensures
        params@.map_values(|p: String| p@) =~= strs_of(spec_params(raw@.skip(start as int))),
{
    let mut params: Vec<String> = Vec::new();
    let mut j = start;
    loop
        invariant_except_break
            start <= j <= raw@.len(),
            strs_of(spec_params(raw@.skip(start as int))) =~= params@.map_values(
                |p: String| p@,
            ) + strs_of(spec_params(raw@.skip(j as int))),
        ensures
            strs_of(spec_params(raw@.skip(start as int))) =~= params@.map_values(|p: String| p@),
        decreases raw@.len() - j,
    {
        let ghost params_pre = params@;
        let j2 = skip_separators(raw, j);
        proof {
            lemma_spec_params_seps(raw@.skip(j as int));
        }
        if j2 >= raw.len() {
            proof {
                assert(spec_params(raw@.skip(j2 as int)) =~= Seq::<Seq<u8>>::empty());
            }
            break;
        }
        let ghost t = raw@.skip(j2 as int);
        proof {
            assert(drop_seps(t) == t);
        }
        if raw[j2] == COLON {
            let (tr, _j3) = consume_string(raw, j2 + 1, false);
            params.push(tr);
            proof {
                assert(t.drop_first() =~= raw@.skip(j2 + 1));
                assert(spec_params(t) == seq![take_line(t.drop_first())]);
                assert(params@.map_values(|p: String| p@) =~= params_pre.map_values(
                    |p: String| p@,
                ) + strs_of(spec_params(t)));
            }
            break;
        }
        let (p, j3) = consume_string(raw, j2, true);
        params.push(p);
        proof {
            let tok = take_token(t);
            assert(spec_params(t) == seq![tok] + spec_params(t.skip(tok.len() as int)));
            assert(t.skip(tok.len() as int) =~= raw@.skip(j3 as int));
            assert(params@.map_values(|p: String| p@) =~= params_pre.map_values(|p: String| p@)
                + seq![str_of(tok)]);
            assert(strs_of(seq![tok] + spec_params(t.skip(tok.len() as int))) =~= seq![
                str_of(tok),
            ] + strs_of(spec_params(t.skip(tok.len() as int))));
        }
        j = j3;
    }
    params
}

/// Parses one raw line into a [`Message`]. Fails exactly on a headless
/// line (a prefix with no command after it); an empty or all-separator
/// line parses to the abort sentinel, signalling a closed connection.
pub fn parse_message(raw: &[u8]) -> (res: Result<Message, ParseError>)
    ensures
        res is Ok <==> !headless(raw@),
        res matches Ok(m) ==> parse_ok(raw@, m@),
{
    let mut source: Option<String> = None;
    let mut i: usize = 0;
    if raw.len() > 0 && raw[0] == COLON {
        let (src, j) = consume_attribute(raw, 1);
        proof {
            assert(raw@.skip(1) =~= raw@.drop_first());
        }
        source = Some(src);
        i = j;
    }
    proof {
        assert(raw@.skip(i as int) =~= spec_after_source(raw@));
    }
    let i2 = skip_separators(raw, i);
    let (cmd, i3) = consume_attribute(raw, i2);
    let ghost tok = spec_command_token(raw@);
    if cmd.as_str().is_empty() {
        proof {
            assert(str_of(tok).len() == tok.len());
        }
        match source {
            None => {
                proof {
                    lemma_command_classification(str_of(tok));
                    assert(spec_command_of(str_of(tok)) is AbortClient);
                    assert(i2 == raw@.len()) by {
                        if i2 < raw@.len() {
                            assert(take_token(raw@.skip(i2 as int)) == seq![
                                raw@[i2 as int],
                            ] + take_token(raw@.skip(i2 as int).drop_first()));
                        }
                    }
                    assert(spec_params_input(raw@) =~= Seq::<u8>::empty());
                    assert(strs_of(spec_parameters(raw@)) =~= Seq::<Seq<char>>::empty());
                }
                let m = Message {
                    source: None,
                    command: Command::AbortClient,
                    parameters: Vec::new(),
                };
                proof {
                    assert(m@.parameters =~= Seq::<Seq<char>>::empty());
                }
                Ok(m)
            },
            Some(_) => Err(ParseError::MissingCommand),
        }
    } else {
        proof {
            assert(str_of(tok).len() == tok.len());
        }
        let parameters = parse_parameters(raw, i3);
        proof {
            assert(raw@.skip(i3 as int) =~= spec_params_input(raw@));
        }
        let command = match_command(cmd);
        Ok(Message { source, command, parameters })
    }
}

/// Prefix law: a line assembled from the marker, a space-free source and
/// a space-separated remainder carries exactly that source as its prefix,
/// marker and separating space removed.
pub proof fn lemma_prefix_source(src: Seq<u8>, rest: Seq<u8>)
    requires
        forall|i: int| 0 <= i < src.len() ==> !is_sep(#[trigger] src[i]),
    ensures
        ({
            let raw = seq![COLON] + src + seq![SPACE] + rest;
            &&& has_prefix(raw)
            &&& spec_source(raw) == src
            &&& spec_after_source(raw) == seq![SPACE] + rest
        }),
{
    let raw = seq![COLON] + src + seq![SPACE] + rest;
    let body = src + seq![SPACE] + rest;
    assert(raw.drop_first() =~= body);
    lemma_take_token_shape(body, src.len() as int);
    assert(body.take(src.len() as int) =~= src);
    assert(raw.skip(1 + src.len() as int) =~= seq![SPACE] + rest);
}

/// The scan of a parameter section reaches a trailing-parameter marker.
pub open spec fn has_trailing(s: Seq<u8>) -> bool
    decreases s.len(),
    via has_trailing_decreases
{
    let t = drop_seps(s);
    if t.len() == 0 {
        false
    } else if t[0] == COLON {
        true
    } else {
        has_trailing(t.skip(take_token(t).len() as int))
    }
}

#[via_fn]
proof fn has_trailing_decreases(s: Seq<u8>) {
    let t = drop_seps(s);
    lemma_drop_seps_le(s);
    if t.len() > 0 && t[0] != COLON {
        lemma_take_token_le(t);
        assert(take_token(t) == seq![t[0]] + take_token(t.drop_first()));
    }
}

/// The verbatim text the trailing-parameter marker introduces.
pub open spec fn trailing_text(s: Seq<u8>) -> Seq<u8>
    decreases s.len(),
    via trailing_text_decreases
{
    let t = drop_seps(s);
    if t.len() == 0 {
        Seq::empty()
    } else if t[0] == COLON {
        take_line(t.drop_first())
    } else {
        trailing_text(t.skip(take_token(t).len() as int))
    }
}

#[via_fn]
proof fn trailing_text_decreases(s: Seq<u8>) {
    let t = drop_seps(s);
    lemma_drop_seps_le(s);
    if t.len() > 0 && t[0] != COLON {
        lemma_take_token_le(t);
        assert(take_token(t) == seq![t[0]] + take_token(t.drop_first()));
    }
}

/// The trailing text stands in the parameter list exactly as scanned.
proof fn lemma_trailing_in_params(s: Seq<u8>)
    requires
        has_trailing(s),
    ensures
        spec_params(s).len() > 0,
        spec_params(s).last() == trailing_text(s),
    decreases s.len(),
{
    let t = drop_seps(s);
    lemma_drop_seps_le(s);
    if t.len() > 0 && t[0] != COLON {
        lemma_take_token_le(t);
        assert(take_token(t) == seq![t[0]] + take_token(t.drop_first()));
        let after = t.skip(take_token(t).len() as int);
        lemma_trailing_in_params(after);
        assert((seq![take_token(t)] + spec_params(after)).last() == spec_params(after).last());
    }
}

/// Trailing-parameter law: a line whose parameter section reaches the
/// trailing marker ends its parameters with the marked text, verbatim up
/// to the line terminator with every embedded space preserved, and no
/// parameter follows it.
pub proof fn lemma_trailing_parameter(raw: Seq<u8>)
    requires
        has_trailing(spec_params_input(raw)),
    ensures
        spec_parameters(raw).len() > 0,
        spec_parameters(raw).last() == trailing_text(spec_params_input(raw)),
{
    lemma_trailing_in_params(spec_params_input(raw));
}

/// A trailing text free of line-termination bytes is taken whole.
pub proof fn lemma_take_line_verbatim(t: Seq<u8>)
    requires
        forall|i: int| 0 <= i < t.len() ==> !is_line_end(#[trigger] t[i]),
    ensures
        take_line(t) == t,
{
    lemma_take_line_shape(t, t.len() as int);
    assert(t.take(t.len() as int) =~= t);
}

} // verus!
