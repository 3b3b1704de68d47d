//! The closed set of commands a request can name, how a request frame parses
//! into one, and what applying one does to the store.
use vstd::prelude::*;
use vstd::string::StrSliceExecFns;
use vstd::string::StringExecFns;

use crate::db::spec_lookup;
use crate::db::spec_set_rel;
use crate::db::State;
use crate::frame::spec_as_bytes;
use crate::frame::spec_as_int;
use crate::frame::spec_as_string;
use crate::frame::Frame;
use crate::parse::spec_int_err;
use crate::parse::spec_rest;
use crate::parse::spec_string_err;
use crate::parse::Parse;
use crate::parse::ParseError;
use crate::text::ascii_lower;
use crate::text::str_eq;
use crate::text::to_lowercase;

verus! {

broadcast use vstd::utf8::encode_utf8_valid_utf8, vstd::utf8::encode_utf8_decode_utf8;

/// Fetches the value of a key.
pub struct Get {
    pub key: String,
}

/// Writes a value under a key, with an optional time-to-live in milliseconds.
pub struct SetCmd {
    pub key: String,
    pub value: Vec<u8>,
    pub expire: Option<u64>,
}

/// Posts a message to a channel's current subscribers.
pub struct Publish {
    pub channel: String,
    pub message: Vec<u8>,
}

/// Subscribes the connection to one or more channels.
pub struct Subscribe {
    pub channels: Vec<String>,
}

/// Unsubscribes the connection from the named channels, or from all of them
/// when none are named.
pub struct Unsubscribe {
    pub channels: Vec<String>,
}

/// A verb this server does not recognize; it still earns a reply.
pub struct Unknown {
    pub command_name: String,
}

/// One parsed request.
pub enum Command {
    Get(Get),
    Publish(Publish),
    SetCmd(SetCmd),
    Subscribe(Subscribe),
    Unsubscribe(Unsubscribe),
    Unknown(Unknown),
}

/// The mathematical image of a command: its fields as plain sequences.
#[verifier::ext_equal]
pub enum CommandView {
    Get { key: Seq<char> },
    SetCmd { key: Seq<char>, value: Seq<u8>, expire: Option<u64> },
    Publish { channel: Seq<char>, message: Seq<u8> },
    Subscribe { channels: Seq<Seq<char>> },
    Unsubscribe { channels: Seq<Seq<char>> },
    Unknown { name: Seq<char> },
}

impl View for Command {
    type V = CommandView;

    open spec fn view(&self) -> CommandView {
        match self {
            Command::Get(c) => CommandView::Get { key: c.key@ },
            Command::SetCmd(c) => CommandView::SetCmd {
                key: c.key@,
                value: c.value@,
                expire: c.expire,
            },
            Command::Publish(c) => CommandView::Publish {
                channel: c.channel@,
                message: c.message@,
            },
            Command::Subscribe(c) => CommandView::Subscribe {
                channels: c.channels@.map_values(|s: String| s@),
            },
            Command::Unsubscribe(c) => CommandView::Unsubscribe {
                channels: c.channels@.map_values(|s: String| s@),
            },
            Command::Unknown(c) => CommandView::Unknown { name: c.command_name@ },
        }
    }
}

/// What the whole request frame parses to: the command grammar.
pub open spec fn spec_from_frame(frame: Frame) -> Result<CommandView, ParseError> {
    match frame {
        Frame::Array(items) => spec_parse_items(items@),
        _ => Err(ParseError::ExpectedArray),
    }
}

/// The grammar over the array's elements: the first names the verb, read
/// without regard to ASCII case; the rest are that command's arguments. An
/// unrecognized verb parses to `Unknown`, whatever follows it.
pub open spec fn spec_parse_items(items: Seq<Frame>) -> Result<CommandView, ParseError> {
    if items.len() == 0 {
        Err(ParseError::EndOfStream)
    } else {
        match spec_as_string(items[0]) {
            None => Err(spec_string_err(items[0])),
            Some(v0) => {
                let verb = ascii_lower(v0);
                if verb == "get"@ {
                    spec_parse_get(items.skip(1))
                } else if verb == "set"@ {
                    spec_parse_set(items.skip(1))
                } else if verb == "publish"@ {
                    spec_parse_publish(items.skip(1))
                } else if verb == "subscribe"@ {
                    spec_parse_subscribe(items.skip(1))
                } else if verb == "unsubscribe"@ {
                    spec_parse_unsubscribe(items.skip(1))
                } else {
                    Ok(CommandView::Unknown { name: verb })
                }
            },
        }
    }
}

/// GET takes exactly one key.
pub open spec fn spec_parse_get(rest: Seq<Frame>) -> Result<CommandView, ParseError> {
    if rest.len() == 0 {
        Err(ParseError::EndOfStream)
    } else {
        match spec_as_string(rest[0]) {
            None => Err(spec_string_err(rest[0])),
            Some(k) => if rest.len() == 1 {
                Ok(CommandView::Get { key: k })
            } else {
                Err(ParseError::TrailingFrames)
            },
        }
    }
}

/// SET takes a key, a value, and optionally `EX seconds` or `PX
/// milliseconds`, the option verb read without regard to ASCII case.
pub open spec fn spec_parse_set(rest: Seq<Frame>) -> Result<CommandView, ParseError> {
    if rest.len() == 0 {
        Err(ParseError::EndOfStream)
    } else {
        match spec_as_string(rest[0]) {
            None => Err(spec_string_err(rest[0])),
            Some(k) => if rest.len() == 1 {
                Err(ParseError::EndOfStream)
            } else {
                match spec_as_bytes(rest[1]) {
                    None => Err(ParseError::InvalidFrameType),
                    Some(v) => if rest.len() == 2 {
                        Ok(CommandView::SetCmd { key: k, value: v, expire: None })
                    } else {
                        spec_parse_expire(rest, k, v)
                    },
                }
            },
        }
    }
}

/// The expiration option of SET: `EX` counts seconds, `PX` milliseconds.
pub open spec fn spec_parse_expire(rest: Seq<Frame>, k: Seq<char>, v: Seq<u8>) -> Result<
    CommandView,
    ParseError,
> {
    match spec_as_string(rest[2]) {
        None => Err(spec_string_err(rest[2])),
        Some(o0) => {
            let opt = ascii_lower(o0);
            if opt == "ex"@ {
                if rest.len() == 3 {
                    Err(ParseError::EndOfStream)
                } else {
                    match spec_as_int(rest[3]) {
                        None => Err(spec_int_err(rest[3])),
                        Some(secs) => if secs * 1000 > u64::MAX {
                            Err(ParseError::InvalidNumber)
                        } else if rest.len() == 4 {
                            Ok(CommandView::SetCmd {
                                key: k,
                                value: v,
                                expire: Some((secs * 1000) as u64),
                            })
                        } else {
                            Err(ParseError::TrailingFrames)
                        },
                    }
                }
            } else if opt == "px"@ {
                if rest.len() == 3 {
                    Err(ParseError::EndOfStream)
                } else {
                    match spec_as_int(rest[3]) {
                        None => Err(spec_int_err(rest[3])),
                        Some(ms) => if rest.len() == 4 {
                            Ok(CommandView::SetCmd { key: k, value: v, expire: Some(ms) })
                        } else {
                            Err(ParseError::TrailingFrames)
                        },
                    }
                }
            } else {
                Err(ParseError::UnsupportedOption)
            }
        },
    }
}

/// PUBLISH takes exactly a channel and a message.
pub open spec fn spec_parse_publish(rest: Seq<Frame>) -> Result<CommandView, ParseError> {
    if rest.len() == 0 {
        Err(ParseError::EndOfStream)
    } else {
        match spec_as_string(rest[0]) {
            None => Err(spec_string_err(rest[0])),
            Some(c) => if rest.len() == 1 {
                Err(ParseError::EndOfStream)
            } else {
                match spec_as_bytes(rest[1]) {
                    None => Err(ParseError::InvalidFrameType),
                    Some(m) => if rest.len() == 2 {
                        Ok(CommandView::Publish { channel: c, message: m })
                    } else {
                        Err(ParseError::TrailingFrames)
                    },
                }
            },
        }
    }
}

/// A run of channel names, each element a string.
pub open spec fn spec_parse_channels(rest: Seq<Frame>) -> Result<Seq<Seq<char>>, ParseError>
    decreases rest.len(),
{
    if rest.len() == 0 {
        Ok(Seq::empty())
    } else {
        match spec_as_string(rest[0]) {
            None => Err(spec_string_err(rest[0])),
            Some(c) => match spec_parse_channels(rest.skip(1)) {
                Ok(tail) => Ok(seq![c] + tail),
                Err(e) => Err(e),
            },
        }
    }
}

/// SUBSCRIBE takes one or more channels.
pub open spec fn spec_parse_subscribe(rest: Seq<Frame>) -> Result<CommandView, ParseError> {
    if rest.len() == 0 {
        Err(ParseError::EndOfStream)
    } else {
        match spec_parse_channels(rest) {
            Ok(cs) => Ok(CommandView::Subscribe { channels: cs }),
            Err(e) => Err(e),
        }
    }
}

/// UNSUBSCRIBE takes any number of channels, none meaning all.
pub open spec fn spec_parse_unsubscribe(rest: Seq<Frame>) -> Result<CommandView, ParseError> {
    match spec_parse_channels(rest) {
        Ok(cs) => Ok(CommandView::Unsubscribe { channels: cs }),
        Err(e) => Err(e),
    }
}

impl Get {
    /// Parses GET's arguments: the key, with nothing after it.
    pub fn parse_frames(parse: &mut Parse) -> (r: Result<Get, ParseError>)
        requires
            old(parse).wf(),
        ensures
            match r {
                Ok(g) => spec_parse_get(spec_rest(*old(parse))) == Ok::<CommandView, ParseError>(CommandView::Get {
                    key: g.key@,
                }),
                Err(e) => spec_parse_get(spec_rest(*old(parse))) == Err::<
                    CommandView,
                    ParseError,
                >(e),
            },
    {
        let key = match parse.next_string() {
            Ok(s) => s,
            Err(e) => return Err(e),
        };
        match parse.finish() {
            Ok(_) => {},
            Err(e) => return Err(e),
        }
        Ok(Get { key })
    }
}

impl SetCmd {
    /// Parses SET's arguments: key, value, and the optional expiration.
    pub fn parse_frames(parse: &mut Parse) -> (r: Result<SetCmd, ParseError>)
        requires
            old(parse).wf(),
        ensures
            match r {
                Ok(c) => spec_parse_set(spec_rest(*old(parse))) == Ok::<CommandView, ParseError>(CommandView::SetCmd {
                    key: c.key@,
                    value: c.value@,
                    expire: c.expire,
                }),
                Err(e) => spec_parse_set(spec_rest(*old(parse))) == Err::<
                    CommandView,
                    ParseError,
                >(e),
            },
    {
        let key = match parse.next_string() {
            Ok(s) => s,
            Err(e) => return Err(e),
        };
        let value = match parse.next_bytes() {
            Ok(b) => b,
            Err(e) => return Err(e),
        };
        let expire: Option<u64>;
        if parse.remaining() == 0 {
            expire = None;
        } else {
            let opt = match parse.next_string() {
                Ok(s) => s,
                Err(e) => return Err(e),
            };
            let lowered = to_lowercase(opt.as_str());
            if str_eq(lowered.as_str(), "ex") {
                let secs = match parse.next_int() {
                    Ok(v) => v,
                    Err(e) => return Err(e),
                };
                if secs > u64::MAX / 1000 {
                    proof {
                        assert(secs * 1000 > u64::MAX) by (nonlinear_arith)
                            requires
                                secs > u64::MAX / 1000,
                        ;
                    }
                    return Err(ParseError::InvalidNumber);
                }
                proof {
                    assert(secs * 1000 <= u64::MAX) by (nonlinear_arith)
                        requires
                            secs <= u64::MAX / 1000,
                    ;
                }
                expire = Some(secs * 1000);
            } else if str_eq(lowered.as_str(), "px") {
                let ms = match parse.next_int() {
                    Ok(v) => v,
                    Err(e) => return Err(e),
                };
                expire = Some(ms);
            } else {
                return Err(ParseError::UnsupportedOption);
            }
        }
        match parse.finish() {
            Ok(_) => {},
            Err(e) => return Err(e),
        }
        Ok(SetCmd { key, value, expire })
    }
}

impl Publish {
    /// Parses PUBLISH's arguments: the channel and the message.
    pub fn parse_frames(parse: &mut Parse) -> (r: Result<Publish, ParseError>)
        requires
            old(parse).wf(),
        ensures
            match r {
                Ok(c) => spec_parse_publish(spec_rest(*old(parse))) == Ok::<CommandView, ParseError>(
                    CommandView::Publish { channel: c.channel@, message: c.message@ },
                ),
                Err(e) => spec_parse_publish(spec_rest(*old(parse))) == Err::<
                    CommandView,
                    ParseError,
                >(e),
            },
    {
        let channel = match parse.next_string() {
            Ok(s) => s,
            Err(e) => return Err(e),
        };
        let message = match parse.next_bytes() {
            Ok(b) => b,
            Err(e) => return Err(e),
        };
        match parse.finish() {
            Ok(_) => {},
            Err(e) => return Err(e),
        }
        Ok(Publish { channel, message })
    }
}

/// Reads the channel names remaining on the cursor, each a string.
fn parse_channels(parse: &mut Parse) -> (r: Result<Vec<String>, ParseError>)
    requires
        old(parse).wf(),
    ensures
        match r {
            Ok(cs) => spec_parse_channels(spec_rest(*old(parse))) == Ok::<Seq<Seq<char>>, ParseError>(
                cs@.map_values(|s: String| s@),
            ),
            Err(e) => spec_parse_channels(spec_rest(*old(parse))) == Err::<
                Seq<Seq<char>>,
                ParseError,
            >(e),
        },
{
    let ghost rest0 = spec_rest(*parse);
    let mut channels: Vec<String> = Vec::new();
    proof {
        assert(channels@.map_values(|s: String| s@) =~= Seq::<Seq<char>>::empty());
    }
    while parse.remaining() > 0
        invariant
            parse.wf(),
            rest0 == spec_rest(*old(parse)),
            ({
                let cur = spec_rest(*parse);
                match spec_parse_channels(cur) {
                    Ok(tail) => spec_parse_channels(rest0) == Ok::<
                        Seq<Seq<char>>,
                        ParseError,
                    >(channels@.map_values(|s: String| s@) + tail),
                    Err(e) => spec_parse_channels(rest0) == Err::<Seq<Seq<char>>, ParseError>(
                        e,
                    ),
                }
            }),
        decreases spec_rest(*parse).len(),
    {
        let ghost cur = spec_rest(*parse);
        let ghost acc = channels@.map_values(|s: String| s@);
        let c = match parse.next_string() {
            Ok(s) => s,
            Err(e) => return Err(e),
        };
        channels.push(c);
        proof {
            assert(cur.skip(1) =~= spec_rest(*parse));
            assert(channels@.map_values(|s: String| s@) =~= acc + seq![c@]);
            if spec_parse_channels(spec_rest(*parse)) is Ok {
                let tail = spec_parse_channels(spec_rest(*parse))->Ok_0;
                assert((acc + seq![c@]) + tail =~= acc + (seq![c@] + tail));
            }
        }
    }
    proof {
        assert(spec_rest(*parse).len() == 0);
        assert(channels@.map_values(|s: String| s@) + Seq::<Seq<char>>::empty()
            =~= channels@.map_values(|s: String| s@));
    }
    Ok(channels)
}

impl Subscribe {
    /// Parses SUBSCRIBE's arguments: one or more channels.
    pub fn parse_frames(parse: &mut Parse) -> (r: Result<Subscribe, ParseError>)
        requires
            old(parse).wf(),
        ensures
            match r {
                Ok(c) => spec_parse_subscribe(spec_rest(*old(parse))) == Ok::<CommandView, ParseError>(
                    CommandView::Subscribe { channels: c.channels@.map_values(|s: String| s@) },
                ),
                Err(e) => spec_parse_subscribe(spec_rest(*old(parse))) == Err::<
                    CommandView,
                    ParseError,
                >(e),
            },
    {
        if parse.remaining() == 0 {
            return Err(ParseError::EndOfStream);
        }
        match parse_channels(parse) {
            Ok(channels) => Ok(Subscribe { channels }),
            Err(e) => Err(e),
        }
    }
}

impl Unsubscribe {
    /// Parses UNSUBSCRIBE's arguments: any number of channels.
    pub fn parse_frames(parse: &mut Parse) -> (r: Result<Unsubscribe, ParseError>)
        requires
            old(parse).wf(),
        ensures
            match r {
                Ok(c) => spec_parse_unsubscribe(spec_rest(*old(parse))) == Ok::<CommandView, ParseError>(
                    CommandView::Unsubscribe {
                        channels: c.channels@.map_values(|s: String| s@),
                    },
                ),
                Err(e) => spec_parse_unsubscribe(spec_rest(*old(parse))) == Err::<
                    CommandView,
                    ParseError,
                >(e),
            },
    {
        match parse_channels(parse) {
            Ok(channels) => Ok(Unsubscribe { channels }),
            Err(e) => Err(e),
        }
    }
}

/// Why a parsed command could not be applied.
#[derive(Clone, Copy, Debug, PartialEq, Eq, Structural)]
pub enum ApplyError {
    /// The command is accepted syntactically but its application logic is
    /// not wired to the store.
    Unimplemented,
}

/// The name of a command, as the protocol spells it.
pub open spec fn spec_name(c: Command) -> Seq<char> {
    match c {
        Command::Get(_) => "get"@,
        Command::Publish(_) => "pub"@,
        Command::SetCmd(_) => "set"@,
        Command::Subscribe(_) => "subscribe"@,
        Command::Unsubscribe(_) => "unsubscribe"@,
        Command::Unknown(u) => u.command_name@,
    }
}

impl Get {
    /// A GET command for `key`.
    pub fn new(key: &str) -> (r: Get)
        ensures
            r.key@ == key@,
    {
        Get { key: String::from_str(key) }
    }

    /// The request frame a client sends for this command; it parses back to
    /// exactly this command.
    pub fn into_frame(self) -> (r: Frame)
        ensures
            spec_from_frame(r) == Ok::<CommandView, ParseError>(CommandView::Get {
                key: self.key@,
            }),
    {
        let mut items: Vec<Frame> = Vec::new();
        items.push(Frame::Bulk("get".as_bytes_vec()));
        items.push(Frame::Bulk(self.key.as_str().as_bytes_vec()));
        let ghost gits = items@;
        let r = Frame::Array(items);
        proof {
            reveal_strlit("get");
            assert(ascii_lower("get"@) =~= "get"@);
            assert(spec_as_string(gits[0]) == Some("get"@));
            assert(spec_as_string(gits[1]) == Some(self.key@));
            assert(gits.skip(1) =~= seq![gits[1]]);
        }
        r
    }
}

impl SetCmd {
    /// A SET command for `key`, with an optional time-to-live in
    /// milliseconds.
    pub fn new(key: &str, value: Vec<u8>, expire: Option<u64>) -> (r: SetCmd)
        ensures
            r.key@ == key@,
            r.value == value,
            r.expire == expire,
    {
        SetCmd { key: String::from_str(key), value, expire }
    }

    /// The request frame a client sends for this command; it parses back to
    /// exactly this command.
    pub fn into_frame(self) -> (r: Frame)
        ensures
            spec_from_frame(r) == Ok::<CommandView, ParseError>(CommandView::SetCmd {
                key: self.key@,
                value: self.value@,
                expire: self.expire,
            }),
    {
        let ghost gval = self.value@;
        let mut items: Vec<Frame> = Vec::new();
        items.push(Frame::Bulk("set".as_bytes_vec()));
        items.push(Frame::Bulk(self.key.as_str().as_bytes_vec()));
        items.push(Frame::Bulk(self.value));
        match self.expire {
            Some(ms) => {
                items.push(Frame::Bulk("px".as_bytes_vec()));
                items.push(Frame::Integer(ms));
            },
            None => {},
        }
        let ghost gits = items@;
        let r = Frame::Array(items);
        proof {
            reveal_strlit("set");
            reveal_strlit("px");
            reveal_strlit("get");
            assert(ascii_lower("set"@) =~= "set"@);
            assert("set"@ != "get"@);
            assert(spec_as_string(gits[0]) == Some("set"@));
            assert(spec_as_string(gits[1]) == Some(self.key@));
            assert(spec_as_bytes(gits[2]) == Some(gval));
            let rest = gits.skip(1);
            assert(rest[0] == gits[1] && rest[1] == gits[2]);
            if self.expire is Some {
                assert(rest[2] == gits[3] && rest[3] == gits[4]);
                assert(ascii_lower("px"@) =~= "px"@);
                reveal_strlit("ex");
                assert("px"@ != "ex"@);
                assert(spec_as_string(gits[3]) == Some("px"@));
            }
        }
        r
    }
}

impl Command {
    /// Applies the command against the store at instant `now` and computes
    /// the reply frame, together with whether the eviction routine must be
    /// woken: a bulk or null reply for GET, a simple `OK` for SET, an error
    /// reply naming the verb for an unrecognized command. Subscription and
    /// publish commands are accepted syntactically but report themselves
    /// unimplemented, and the handler aborts the connection as on a protocol
    /// error.
    pub fn apply(self, db: &mut State, now: u64) -> (r: Result<(Frame, bool), ApplyError>)
        requires
            old(db).wf(),
            old(db).next_id < u64::MAX,
        ensures
            match self {
                Command::Get(c) => *final(db) == *old(db) && (r matches Ok(p) && p.1 == false
                    && (match spec_lookup(old(db).entries@, c.key@) {
                    Some(e) => p.0 matches Frame::Bulk(b) && b@ == e.data@,
                    None => p.0 is Null,
                })),
                Command::SetCmd(c) => r matches Ok(p) && spec_set_rel(
                    *old(db),
                    *final(db),
                    c.key@,
                    c.value@,
                    c.expire,
                    now,
                    p.1,
                ) && (p.0 matches Frame::Simple(s) && s@ == "OK"@),
                Command::Unknown(c) => *final(db) == *old(db) && (r matches Ok(p) && p.1
                    == false && (p.0 matches Frame::Error(m) && m@ == "ERR unknown command '"@
                    + c.command_name@ + "'"@)),
                _ => *final(db) == *old(db) && (r matches Err(e) && e
                    == ApplyError::Unimplemented),
            },
    {
        match self {
            Command::Get(c) => {
                let reply = match db.get(c.key.as_str()) {
                    Some(v) => Frame::Bulk(v),
                    None => Frame::Null,
                };
                Ok((reply, false))
            },
            Command::SetCmd(c) => {
                let notify = db.set(c.key, c.value, c.expire, now);
                Ok((Frame::Simple(String::from_str("OK")), notify))
            },
            Command::Unknown(c) => {
                let mut m = String::from_str("ERR unknown command '");
                m.append(c.command_name.as_str());
                m.append("'");
                Ok((Frame::Error(m), false))
            },
            _ => Err(ApplyError::Unimplemented),
        }
    }

    /// The name of the command, as the protocol spells it.
    pub fn get_name(&self) -> (r: &str)
        ensures
            r@ == spec_name(*self),
    {
        match self {
            Command::Get(_) => "get",
            Command::Publish(_) => "pub",
            Command::SetCmd(_) => "set",
            Command::Subscribe(_) => "subscribe",
            Command::Unsubscribe(_) => "unsubscribe",
            Command::Unknown(c) => c.command_name.as_str(),
        }
    }

    /// Parses a request frame into the command it names. The verb is read
    /// without regard to ASCII case; an unrecognized verb still parses, to
    /// `Unknown`, so the server can answer instead of dropping the
    /// connection.
    pub fn from_frame(frame: Frame) -> (r: Result<Command, ParseError>)
        ensures
            match r {
                Ok(cmd) => spec_from_frame(frame) == Ok::<CommandView, ParseError>(cmd@),
                Err(e) => spec_from_frame(frame) == Err::<CommandView, ParseError>(e),
            },
    {
        let mut parse = match Parse::new(frame) {
            Ok(p) => p,
            Err(e) => return Err(e),
        };
        let ghost items = parse.parts@;
        let name = match parse.next_string() {
            Ok(s) => s,
            Err(e) => return Err(e),
        };
        proof {
            assert(spec_rest(parse) =~= items.skip(1));
        }
        let lowered = to_lowercase(name.as_str());
        if str_eq(lowered.as_str(), "get") {
            match Get::parse_frames(&mut parse) {
                Ok(g) => Ok(Command::Get(g)),
                Err(e) => Err(e),
            }
        } else if str_eq(lowered.as_str(), "set") {
            match SetCmd::parse_frames(&mut parse) {
                Ok(c) => Ok(Command::SetCmd(c)),
                Err(e) => Err(e),
            }
        } else if str_eq(lowered.as_str(), "publish") {
            match Publish::parse_frames(&mut parse) {
                Ok(c) => Ok(Command::Publish(c)),
                Err(e) => Err(e),
            }
        } else if str_eq(lowered.as_str(), "subscribe") {
            match Subscribe::parse_frames(&mut parse) {
                Ok(c) => Ok(Command::Subscribe(c)),
                Err(e) => Err(e),
            }
        } else if str_eq(lowered.as_str(), "unsubscribe") {
            match Unsubscribe::parse_frames(&mut parse) {
                Ok(c) => Ok(Command::Unsubscribe(c)),
                Err(e) => Err(e),
            }
        } else {
            Ok(Command::Unknown(Unknown { command_name: lowered }))
        }
    }
}

} // verus!
