//! Decoding a Sysmon event record from its XML rendering.
//!
//! The xml crate turns the text into a flat stream of tokens; which tokens make which event
//! is decided here.

use vstd::prelude::*;
use vstd::string::StrSliceExecFns;
use crate::event::{
    Event, FileCreateData, FileCreateEvent, NetworkData, NetworkEvent, ProcessCreateData,
    ProcessCreateEvent, System,
};
use crate::text::same_text;

verus! {

/// One piece of an XML document, with names reduced to their local part.
pub enum Token {
    Start { name: String, attributes: Vec<(String, String)> },
    End { name: String },
    /// Character data, CDATA or whitespace.
    Text { text: String },
    /// Declarations, comments, processing instructions and the like.
    Other,
}

/// The token stream that the xml crate's `EventReader` produces for a text, or `None` when it
/// reports an error.
pub uninterp spec fn xml_tokens_of(s: Seq<char>) -> Option<Seq<Token>>;

/// Relies on xml's `EventReader::from_str` and its event iterator: the token stream depends
/// on the text alone, and reading stops at the first error.
#[verifier::external_body]
fn xml_tokens(s: &str) -> (r: Option<Vec<Token>>)
    ensures
        match r {
            Some(v) => xml_tokens_of(s@) == Some(v@),
            None => xml_tokens_of(s@) is None,
        },
{
    let mut out = Vec::new();
    for ev in xml::reader::EventReader::from_str(s) {
        match ev {
            Ok(e) => out.push(token_of(e)),
            Err(_) => return None,
        }
    }
    Some(out)
}

/// The xml crate's reader event, carried opaquely from the reader into `token_of`.
#[verifier::external_type_specification]
#[verifier::external_body]
pub struct ExXmlEvent(xml::reader::XmlEvent);

/// Relies on xml's `XmlEvent`: moves the names, attributes and text of an event into a token.
#[verifier::external_body]
fn token_of(e: xml::reader::XmlEvent) -> Token {
    match e {
        xml::reader::XmlEvent::StartElement { name, attributes, .. } => Token::Start {
            name: name.local_name,
            attributes: attributes.into_iter().map(|a| (a.name.local_name, a.value)).collect(),
        },
        xml::reader::XmlEvent::EndElement { name } => Token::End { name: name.local_name },
        xml::reader::XmlEvent::Characters(t) => Token::Text { text: t },
        xml::reader::XmlEvent::CData(t) => Token::Text { text: t },
        xml::reader::XmlEvent::Whitespace(t) => Token::Text { text: t },
        _ => Token::Other,
    }
}

/// The value of the first attribute called `key`.
pub open spec fn attr_value(attrs: Seq<(String, String)>, key: Seq<char>) -> Option<Seq<char>>
    decreases attrs.len(),
{
    if attrs.len() == 0 {
        None
    } else if attrs[0].0@ == key {
        Some(attrs[0].1@)
    } else {
        attr_value(attrs.drop_first(), key)
    }
}

/// Whether token `t` opens an element called `name`.
pub open spec fn opens(t: Token, name: Seq<char>) -> bool {
    t matches Token::Start { name: n, .. } && n@ == name
}

/// Whether token `t` opens a `Data` element whose `Name` attribute is `key`.
pub open spec fn opens_data(t: Token, key: Seq<char>) -> bool {
    match t {
        Token::Start { name, attributes } => name@ == "Data"@ && attr_value(attributes@, "Name"@)
            == Some(key),
        _ => false,
    }
}

/// The position of the first token at or after `from` that satisfies `opens(_, name)`.
pub open spec fn first_open(ts: Seq<Token>, name: Seq<char>, from: int) -> Option<int>
    decreases ts.len() - from,
{
    if from < 0 || from >= ts.len() {
        None
    } else if opens(ts[from], name) {
        Some(from)
    } else {
        first_open(ts, name, from + 1)
    }
}

/// The position of the first token at or after `from` that opens the `Data` element `key`.
pub open spec fn first_data(ts: Seq<Token>, key: Seq<char>, from: int) -> Option<int>
    decreases ts.len() - from,
{
    if from < 0 || from >= ts.len() {
        None
    } else if opens_data(ts[from], key) {
        Some(from)
    } else {
        first_data(ts, key, from + 1)
    }
}

/// The text directly inside the element opened at position `i` (empty when none follows).
pub open spec fn text_after(ts: Seq<Token>, i: int) -> Seq<char> {
    if 0 <= i + 1 < ts.len() && ts[i + 1] is Text {
        ts[i + 1]->Text_text@
    } else {
        Seq::empty()
    }
}

/// The text of the first element called `name`.
pub open spec fn element_text(ts: Seq<Token>, name: Seq<char>) -> Option<Seq<char>> {
    match first_open(ts, name, 0) {
        Some(i) => Some(text_after(ts, i)),
        None => None,
    }
}

/// The value of attribute `key` on the first element called `name`.
pub open spec fn element_attr(ts: Seq<Token>, name: Seq<char>, key: Seq<char>) -> Option<Seq<char>> {
    match first_open(ts, name, 0) {
        Some(i) => attr_value(ts[i]->Start_attributes@, key),
        None => None,
    }
}

/// The text of the first `Data` element named `key`.
pub open spec fn data_text(ts: Seq<Token>, key: Seq<char>) -> Option<Seq<char>> {
    match first_data(ts, key, 0) {
        Some(i) => Some(text_after(ts, i)),
        None => None,
    }
}

/// Whether a character is an ASCII decimal digit.
pub open spec fn is_digit(c: char) -> bool {
    '0' <= c && c <= '9'
}

/// The value of a run of decimal digits.
pub open spec fn digits_value(s: Seq<char>) -> nat
    decreases s.len(),
{
    if s.len() == 0 {
        0
    } else {
        digits_value(s.drop_last()) * 10 + (s.last() as nat - '0' as nat) as nat
    }
}

/// The number that a non-empty run of decimal digits spells, if it is at most `max`.
pub open spec fn number_of(s: Seq<char>, max: nat) -> Option<nat> {
    if s.len() > 0 && (forall|k: int| 0 <= k < s.len() ==> is_digit(#[trigger] s[k]))
        && digits_value(s) <= max {
        Some(digits_value(s))
    } else {
        None
    }
}

/// The truth value that `true` or `false` spells.
pub open spec fn flag_of(s: Seq<char>) -> Option<bool> {
    if s == "true"@ {
        Some(true)
    } else if s == "false"@ {
        Some(false)
    } else {
        None
    }
}

/// Whether the header of a decoded event matches the record.
pub open spec fn header_from(ts: Seq<Token>, sys: System) -> bool {
    &&& element_text(ts, "EventID"@) matches Some(t) && number_of(t, 255) == Some(
        sys.event_id as nat,
    )
    &&& element_attr(ts, "TimeCreated"@, "SystemTime"@) == Some(sys.system_time@)
    &&& element_text(ts, "Computer"@) == Some(sys.computer@)
}

/// Whether a text field of the record holds the given value.
pub open spec fn data_is(ts: Seq<Token>, key: Seq<char>, v: String) -> bool {
    data_text(ts, key) == Some(v@)
}

/// Whether a numeric field of the record holds the given value.
pub open spec fn number_is(ts: Seq<Token>, key: Seq<char>, max: nat, v: nat) -> bool {
    data_text(ts, key) matches Some(t) && number_of(t, max) == Some(v)
}

/// The event-type code that a record declares, if it is a number that fits a byte.
pub open spec fn declared_code(ts: Seq<Token>) -> Option<nat> {
    match element_text(ts, "EventID"@) {
        Some(t) => number_of(t, 255),
        None => None,
    }
}

/// Whether every field that the record's declared kind needs is present and well formed.
pub open spec fn decodable(ts: Seq<Token>) -> bool {
    &&& declared_code(ts) is Some
    &&& element_attr(ts, "TimeCreated"@, "SystemTime"@) is Some
    &&& element_text(ts, "Computer"@) is Some
    &&& {
        let code = declared_code(ts).unwrap();
        if code == 1 {
            &&& data_text(ts, "ProcessId"@) matches Some(t) && number_of(t, u64::MAX as nat) is Some
            &&& data_text(ts, "ParentProcessId"@) matches Some(t) && number_of(
                t,
                u64::MAX as nat,
            ) is Some
            &&& data_text(ts, "Image"@) is Some
            &&& data_text(ts, "ParentImage"@) is Some
            &&& data_text(ts, "CommandLine"@) is Some
            &&& data_text(ts, "User"@) is Some
        } else if code == 3 {
            &&& data_text(ts, "Image"@) is Some
            &&& data_text(ts, "DestinationIp"@) is Some
            &&& data_text(ts, "DestinationPort"@) matches Some(t) && number_of(t, u16::MAX as nat) is Some
            &&& data_text(ts, "Protocol"@) is Some
            &&& data_text(ts, "Initiated"@) matches Some(t) && flag_of(t) is Some
        } else if code == 11 {
            &&& data_text(ts, "Image"@) is Some
            &&& data_text(ts, "TargetFilename"@) is Some
        } else {
            false
        }
    }
}

/// Whether `e` is the event that the record describes: code 1 is a process creation, code 3
/// a connection (outbound when the process initiated it, inbound otherwise), code 11 a file
/// creation.
pub open spec fn decodes_to(ts: Seq<Token>, e: Event) -> bool {
    match e {
        Event::ProcessCreate(p) => {
            let d = p.event_data;
            &&& p.system.event_id == 1
            &&& header_from(ts, p.system)
            &&& number_is(ts, "ProcessId"@, u64::MAX as nat, d.process_id as nat)
            &&& number_is(ts, "ParentProcessId"@, u64::MAX as nat, d.parent_process_id as nat)
            &&& data_is(ts, "Image"@, d.image)
            &&& data_is(ts, "ParentImage"@, d.parent_image)
            &&& data_is(ts, "CommandLine"@, d.command_line)
            &&& data_is(ts, "User"@, d.user)
        },
        Event::InboundNetwork(n) => network_from(ts, n, false),
        Event::OutboundNetwork(n) => network_from(ts, n, true),
        Event::FileCreate(f) => {
            &&& f.system.event_id == 11
            &&& header_from(ts, f.system)
            &&& data_is(ts, "Image"@, f.event_data.image)
            &&& data_is(ts, "TargetFilename"@, f.event_data.target_filename)
        },
    }
}

/// Whether `n` is the connection that the record describes, with the given direction.
pub open spec fn network_from(ts: Seq<Token>, n: NetworkEvent, initiated: bool) -> bool {
    let d = n.event_data;
    &&& n.system.event_id == 3
    &&& header_from(ts, n.system)
    &&& data_is(ts, "Image"@, d.image)
    &&& data_is(ts, "DestinationIp"@, d.destination_ip)
    &&& number_is(ts, "DestinationPort"@, u16::MAX as nat, d.destination_port as nat)
    &&& data_is(ts, "Protocol"@, d.protocol)
    &&& data_text(ts, "Initiated"@) matches Some(t) && flag_of(t) == Some(initiated)
    &&& d.initiated == initiated
    &&& match d.user {
        Some(u) => data_text(ts, "User"@) == Some(u@),
        None => data_text(ts, "User"@) is None,
    }
}

/// Why a text is not a supported event record.
#[derive(PartialEq, Eq, Structural, Clone, Copy, Debug)]
pub enum DecodeError {
    /// The text is not well-formed XML.
    MalformedXml,
    /// The XML lacks a field that the record's kind needs, or declares an unsupported kind.
    NotAnEvent,
}

fn lookup_attr<'a>(attrs: &'a Vec<(String, String)>, key: &str) -> (r: Option<&'a String>)
    ensures
        match r {
            Some(v) => attr_value(attrs@, key@) == Some(v@),
            None => attr_value(attrs@, key@) is None,
        },
{
    let mut i: usize = 0;
    assert(attrs@.subrange(0, attrs@.len() as int) =~= attrs@);
    while i < attrs.len()
        invariant
            i <= attrs@.len(),
            attr_value(attrs@, key@) == attr_value(attrs@.subrange(i as int, attrs@.len() as int), key@),
        decreases attrs@.len() - i,
    {
        let ghost rest = attrs@.subrange(i as int, attrs@.len() as int);
        assert(rest.drop_first() =~= attrs@.subrange(i + 1, attrs@.len() as int));
        if same_text(attrs[i].0.as_str(), key) {
            return Some(&attrs[i].1);
        }
        i = i + 1;
    }
    None
}

fn is_open(t: &Token, name: &str) -> (r: bool)
    ensures
        r == opens(*t, name@),
{
    match t {
        Token::Start { name: n, .. } => same_text(n.as_str(), name),
        _ => false,
    }
}

fn is_open_data(t: &Token, key: &str) -> (r: bool)
    ensures
        r == opens_data(*t, key@),
{
    match t {
        Token::Start { name, attributes } => {
            if !same_text(name.as_str(), "Data") {
                return false;
            }
            match lookup_attr(attributes, "Name") {
                Some(v) => same_text(v.as_str(), key),
                None => false,
            }
        },
        _ => false,
    }
}

fn find_open(ts: &Vec<Token>, name: &str) -> (r: Option<usize>)
    ensures
        match r {
            Some(i) => first_open(ts@, name@, 0) == Some(i as int) && i < ts@.len() && opens(
                ts@[i as int],
                name@,
            ),
            None => first_open(ts@, name@, 0) is None,
        },
{
    let mut i: usize = 0;
    while i < ts.len()
        invariant
            i <= ts@.len(),
            first_open(ts@, name@, 0) == first_open(ts@, name@, i as int),
        decreases ts@.len() - i,
    {
        if is_open(&ts[i], name) {
            return Some(i);
        }
        i = i + 1;
    }
    None
}

fn find_data(ts: &Vec<Token>, key: &str) -> (r: Option<usize>)
    ensures
        match r {
            Some(i) => first_data(ts@, key@, 0) == Some(i as int) && i < ts@.len(),
            None => first_data(ts@, key@, 0) is None,
        },
{
    let mut i: usize = 0;
    while i < ts.len()
        invariant
            i <= ts@.len(),
            first_data(ts@, key@, 0) == first_data(ts@, key@, i as int),
        decreases ts@.len() - i,
    {
        if is_open_data(&ts[i], key) {
            return Some(i);
        }
        i = i + 1;
    }
    None
}

fn text_at(ts: &Vec<Token>, i: usize) -> (r: String)
    requires
        i < ts@.len(),
    ensures
        r@ == text_after(ts@, i as int),
{
    if i < ts.len() - 1 {
        if let Token::Text { text } = &ts[i + 1] {
            return text.clone();
        }
    }
    String::new()
}

/// The text of the first element called `name`.
pub fn element_text_of(ts: &Vec<Token>, name: &str) -> (r: Option<String>)
    ensures
        match r {
            Some(v) => element_text(ts@, name@) == Some(v@),
            None => element_text(ts@, name@) is None,
        },
{
    match find_open(ts, name) {
        Some(i) => Some(text_at(ts, i)),
        None => None,
    }
}

/// The value of attribute `key` on the first element called `name`.
pub fn element_attr_of(ts: &Vec<Token>, name: &str, key: &str) -> (r: Option<String>)
    ensures
        match r {
            Some(v) => element_attr(ts@, name@, key@) == Some(v@),
            None => element_attr(ts@, name@, key@) is None,
        },
{
    match find_open(ts, name) {
        Some(i) => match &ts[i] {
            Token::Start { attributes, .. } => match lookup_attr(attributes, key) {
                Some(v) => Some(v.clone()),
                None => None,
            },
            _ => None,
        },
        None => None,
    }
}

/// The text of the first `Data` element named `key`.
pub fn data_text_of(ts: &Vec<Token>, key: &str) -> (r: Option<String>)
    ensures
        match r {
            Some(v) => data_text(ts@, key@) == Some(v@),
            None => data_text(ts@, key@) is None,
        },
{
    match find_data(ts, key) {
        Some(i) => Some(text_at(ts, i)),
        None => None,
    }
}

proof fn lemma_digits_grow(s: Seq<char>, j: int)
    requires
        0 <= j <= s.len(),
        forall|k: int| 0 <= k < s.len() ==> is_digit(#[trigger] s[k]),
    ensures
        digits_value(s.subrange(0, j)) <= digits_value(s),
    decreases s.len() - j,
{
    if j < s.len() {
        lemma_digits_grow(s, j + 1);
        let a = s.subrange(0, j);
        assert(s.subrange(0, j + 1).drop_last() =~= a);
        let v = digits_value(a);
        let d = (s[j] as nat - '0' as nat) as nat;
        assert(v <= v * 10 + d) by (nonlinear_arith);
    } else {
        assert(s.subrange(0, j) =~= s);
    }
}

/// Reads a non-empty run of decimal digits whose value is at most `max`.
pub fn parse_number(s: &str, max: u64) -> (r: Option<u64>)
    ensures
        match r {
            Some(v) => number_of(s@, max as nat) == Some(v as nat),
            None => number_of(s@, max as nat) is None,
        },
{
    let n = s.unicode_len();
    if n == 0 {
        return None;
    }
    let mut acc: u64 = 0;
    let mut i: usize = 0;
    assert(s@.subrange(0, 0) =~= Seq::<char>::empty());
    while i < n
        invariant
            n == s@.len(),
            i <= n,
            forall|k: int| 0 <= k < i ==> is_digit(#[trigger] s@[k]),
            acc as nat == digits_value(s@.subrange(0, i as int)),
            acc <= max,
        decreases n - i,
    {
        let c = s.get_char(i);
        if !('0' <= c && c <= '9') {
            return None;
        }
        let d: u64 = (c as u32 - '0' as u32) as u64;
        assert(s@.subrange(0, i + 1).drop_last() =~= s@.subrange(0, i as int));
        if d > max || acc > (max - d) / 10 {
            proof {
                assert(acc as nat * 10 + d as nat > max as nat) by (nonlinear_arith)
                    requires d > max || acc > (max - d) / 10;
                if forall|k: int| 0 <= k < n ==> is_digit(#[trigger] s@[k]) {
                    lemma_digits_grow(s@, i + 1);
                }
            }
            return None;
        }
        assert(acc * 10 + d <= max) by (nonlinear_arith)
            requires acc <= (max - d) / 10, d <= max;
        acc = acc * 10 + d;
        i = i + 1;
    }
    assert(s@.subrange(0, n as int) =~= s@);
    Some(acc)
}

fn parse_flag(s: &str) -> (r: Option<bool>)
    ensures
        r == flag_of(s@),
{
    if same_text(s, "true") {
        Some(true)
    } else if same_text(s, "false") {
        Some(false)
    } else {
        None
    }
}

fn number_field(ts: &Vec<Token>, key: &str, max: u64) -> (r: Option<u64>)
    ensures
        match r {
            Some(v) => number_is(ts@, key@, max as nat, v as nat),
            None => !(data_text(ts@, key@) matches Some(t) && number_of(t, max as nat) is Some),
        },
{
    match data_text_of(ts, key) {
        Some(t) => parse_number(t.as_str(), max),
        None => None,
    }
}

/// Builds the event that a token stream describes.
pub fn event_from_tokens(ts: &Vec<Token>) -> (r: Option<Event>)
    ensures
        r is Some <==> decodable(ts@),
        r matches Some(e) ==> decodes_to(ts@, e),
{
    let code = match element_text_of(ts, "EventID") {
        Some(t) => match parse_number(t.as_str(), 255) {
            Some(c) => c as u8,
            None => return None,
        },
        None => return None,
    };
    let system_time = match element_attr_of(ts, "TimeCreated", "SystemTime") {
        Some(t) => t,
        None => return None,
    };
    let computer = match element_text_of(ts, "Computer") {
        Some(t) => t,
        None => return None,
    };
    let system = System { event_id: code, system_time, computer };
    if code == 1 {
        let process_id = match number_field(ts, "ProcessId", u64::MAX) {
            Some(v) => v,
            None => return None,
        };
        let parent_process_id = match number_field(ts, "ParentProcessId", u64::MAX) {
            Some(v) => v,
            None => return None,
        };
        let image = match data_text_of(ts, "Image") {
            Some(v) => v,
            None => return None,
        };
        let parent_image = match data_text_of(ts, "ParentImage") {
            Some(v) => v,
            None => return None,
        };
        let command_line = match data_text_of(ts, "CommandLine") {
            Some(v) => v,
            None => return None,
        };
        let user = match data_text_of(ts, "User") {
            Some(v) => v,
            None => return None,
        };
        Some(
            Event::ProcessCreate(
                ProcessCreateEvent {
                    system,
                    event_data: ProcessCreateData {
                        process_id,
                        parent_process_id,
                        image,
                        parent_image,
                        command_line,
                        user,
                    },
                },
            ),
        )
    } else if code == 3 {
        let image = match data_text_of(ts, "Image") {
            Some(v) => v,
            None => return None,
        };
        let destination_ip = match data_text_of(ts, "DestinationIp") {
            Some(v) => v,
            None => return None,
        };
        let destination_port = match number_field(ts, "DestinationPort", 65535) {
            Some(v) => v as u16,
            None => return None,
        };
        let protocol = match data_text_of(ts, "Protocol") {
            Some(v) => v,
            None => return None,
        };
        let initiated = match data_text_of(ts, "Initiated") {
            Some(t) => match parse_flag(t.as_str()) {
                Some(b) => b,
                None => return None,
            },
            None => return None,
        };
        let user = data_text_of(ts, "User");
        let net = NetworkEvent {
            system,
            event_data: NetworkData { image, destination_ip, destination_port, protocol, initiated, user },
        };
        if initiated {
            Some(Event::OutboundNetwork(net))
        } else {
            Some(Event::InboundNetwork(net))
        }
    } else if code == 11 {
        let image = match data_text_of(ts, "Image") {
            Some(v) => v,
            None => return None,
        };
        let target_filename = match data_text_of(ts, "TargetFilename") {
            Some(v) => v,
            None => return None,
        };
        Some(
            Event::FileCreate(
                FileCreateEvent { system, event_data: FileCreateData { image, target_filename } },
            ),
        )
    } else {
        None
    }
}

impl Event {
    /// Decodes an event record from its XML rendering.
    pub fn from_str(xml: &str) -> (r: Result<Event, DecodeError>)
        ensures
            match xml_tokens_of(xml@) {
                None => r == Err::<Event, DecodeError>(DecodeError::MalformedXml),
                Some(ts) => match r {
                    Ok(e) => decodable(ts) && decodes_to(ts, e),
                    Err(err) => !decodable(ts) && err == DecodeError::NotAnEvent,
                },
            },
    {
        match xml_tokens(xml) {
            None => Err(DecodeError::MalformedXml),
            Some(ts) => match event_from_tokens(&ts) {
                Some(e) => Ok(e),
                None => Err(DecodeError::NotAnEvent),
            },
        }
    }
}

/// Decodes one Sysmon event record from its XML rendering.
pub fn parse_xml_event(xml: &str) -> (r: Result<Event, DecodeError>)
    ensures
        match xml_tokens_of(xml@) {
            None => r == Err::<Event, DecodeError>(DecodeError::MalformedXml),
            Some(ts) => match r {
                Ok(e) => decodable(ts) && decodes_to(ts, e),
                Err(err) => !decodable(ts) && err == DecodeError::NotAnEvent,
            },
        },
{
    Event::from_str(xml)
}

} // verus!
