//! What the console views show of an event: its details line, truncation, and risk class.

use vstd::prelude::*;
use vstd::string::StringExecFns;
use vstd::string::StrSliceExecFns;
use crate::event::{Event, HasSystem};
use crate::text::{base_name, base_of, decimal_of, lower_of, push_decimal, same_text, to_lower};

verus! {

/// How risky the process behind an event looks, for colouring.
#[derive(PartialEq, Eq, Structural, Clone, Copy, Debug)]
pub enum RiskColor {
    /// A shell or script interpreter.
    Red,
    /// A network connection.
    Blue,
    /// `svchost.exe`, often impersonated.
    Yellow,
    /// Anything else.
    Green,
}

/// The image path of the process behind an event.
pub open spec fn image_of(e: Event) -> Seq<char> {
    match e {
        Event::ProcessCreate(p) => p.event_data.image@,
        Event::InboundNetwork(n) => n.event_data.image@,
        Event::OutboundNetwork(n) => n.event_data.image@,
        Event::FileCreate(f) => f.event_data.image@,
    }
}

/// Shells and interpreters that the console marks as high risk, lower-cased.
pub open spec fn is_risky_shell(name: Seq<char>) -> bool {
    name == "powershell.exe"@ || name == "cmd.exe"@ || name == "wscript.exe"@ || name
        == "cscript.exe"@ || name == "sh.exe"@ || name == "bash.exe"@ || name == "zsh.exe"@
}

/// The risk class of a process given its lower-cased base name and the event-type code.
pub open spec fn risk_of(lower_name: Seq<char>, event_id: u8) -> RiskColor {
    if is_risky_shell(lower_name) {
        RiskColor::Red
    } else if event_id == 3 {
        RiskColor::Blue
    } else if lower_name == "svchost.exe"@ {
        RiskColor::Yellow
    } else {
        RiskColor::Green
    }
}

/// The one-line details of an event.
pub open spec fn details_of(e: Event) -> Seq<char> {
    match e {
        Event::ProcessCreate(p) => p.event_data.command_line@,
        Event::InboundNetwork(n) => n.event_data.protocol@ + " -> "@ + n.event_data.destination_ip@
            + ":"@ + decimal_of(n.event_data.destination_port as nat),
        Event::OutboundNetwork(n) => n.event_data.protocol@ + " -> "@ + n.event_data.destination_ip@
            + ":"@ + decimal_of(n.event_data.destination_port as nat),
        Event::FileCreate(f) => "File: "@ + f.event_data.target_filename@,
    }
}

/// How many bytes UTF-8 takes for a character.
pub open spec fn utf8_width(c: char) -> nat {
    if (c as u32) < 0x80 {
        1
    } else if (c as u32) < 0x800 {
        2
    } else if (c as u32) < 0x10000 {
        3
    } else {
        4
    }
}

/// How many bytes UTF-8 takes for a text.
pub open spec fn utf8_len(s: Seq<char>) -> nat
    decreases s.len(),
{
    if s.len() == 0 {
        0
    } else {
        utf8_len(s.drop_last()) + utf8_width(s.last())
    }
}

/// How many bytes of a text are kept when it is cut for a limit of `max_len` bytes.
pub open spec fn kept_bytes(max_len: nat) -> nat {
    if max_len >= 3 {
        (max_len - 3) as nat
    } else {
        0
    }
}

/// Whether the first `k` bytes of a text end on a character boundary.
pub open spec fn byte_boundary(s: Seq<char>, k: nat) -> bool {
    exists|j: int| 0 <= j <= s.len() && #[trigger] utf8_len(s.subrange(0, j)) == k
}

/// A text that is longer than `max_len` bytes, cut to the characters of its first
/// `kept_bytes(max_len)` bytes and marked with `...`; a text that fits is kept whole.
pub open spec fn truncated(s: Seq<char>, max_len: nat, r: Seq<char>) -> bool {
    if utf8_len(s) <= max_len {
        r == s
    } else {
        exists|j: int|
            0 <= j <= s.len() && #[trigger] utf8_len(s.subrange(0, j)) == kept_bytes(max_len) && r
                == s.subrange(0, j) + "..."@
    }
}

proof fn lemma_utf8_len_grows(s: Seq<char>, a: int, b: int)
    requires
        0 <= a < b <= s.len(),
    ensures
        utf8_len(s.subrange(0, a)) < utf8_len(s.subrange(0, b)),
    decreases b - a,
{
    assert(s.subrange(0, b).drop_last() =~= s.subrange(0, b - 1));
    if a < b - 1 {
        lemma_utf8_len_grows(s, a, b - 1);
    }
}

fn char_width(c: char) -> (r: u128)
    ensures
        r == utf8_width(c),
{
    let v = c as u32;
    if v < 0x80 {
        1
    } else if v < 0x800 {
        2
    } else if v < 0x10000 {
        3
    } else {
        4
    }
}

fn is_risky_shell_name(name: &str) -> (r: bool)
    ensures
        r == is_risky_shell(name@),
{
    same_text(name, "powershell.exe") || same_text(name, "cmd.exe") || same_text(name, "wscript.exe")
        || same_text(name, "cscript.exe") || same_text(name, "sh.exe") || same_text(name, "bash.exe")
        || same_text(name, "zsh.exe")
}

/// The risk class of a lower-cased process base name for an event-type code.
pub fn classify_risk(lower_name: &str, event_id: u8) -> (r: RiskColor)
    ensures
        r == risk_of(lower_name@, event_id),
{
    if is_risky_shell_name(lower_name) {
        RiskColor::Red
    } else if event_id == 3 {
        RiskColor::Blue
    } else if same_text(lower_name, "svchost.exe") {
        RiskColor::Yellow
    } else {
        RiskColor::Green
    }
}

/// The base name of the process behind an event, and its risk class.
pub fn get_process_and_color(event: &Event) -> (r: (RiskColor, String))
    ensures
        r.1@ == base_of(image_of(*event)),
        r.0 == risk_of(lower_of(base_of(image_of(*event))), event.header().event_id),
{
    let image = match event {
        Event::ProcessCreate(e) => &e.event_data.image,
        Event::InboundNetwork(e) => &e.event_data.image,
        Event::OutboundNetwork(e) => &e.event_data.image,
        Event::FileCreate(e) => &e.event_data.image,
    };
    let process_name = base_name(image.as_str());
    let lower_name = to_lower(process_name.as_str());
    let color = classify_risk(lower_name.as_str(), event.system().event_id);
    (color, process_name)
}

/// The one-line details of an event: the command line, the connection, or the file.
pub fn format_event_details(event: &Event) -> (r: String)
    ensures
        r@ == details_of(*event),
{
    match event {
        Event::ProcessCreate(e) => e.event_data.command_line.clone(),
        Event::InboundNetwork(e) | Event::OutboundNetwork(e) => {
            let data = &e.event_data;
            let mut out = data.protocol.clone();
            out.append(" -> ");
            out.append(data.destination_ip.as_str());
            out.append(":");
            push_decimal(&mut out, data.destination_port as u64);
            assert(out@ =~= details_of(*event));
            out
        },
        Event::FileCreate(e) => {
            let mut out = String::new();
            out.append("File: ");
            out.append(e.event_data.target_filename.as_str());
            assert(out@ =~= details_of(*event));
            out
        },
    }
}

/// The command line of a process creation.
pub fn get_command_line(event: &Event) -> (r: Option<String>)
    ensures
        match *event {
            Event::ProcessCreate(p) => r matches Some(s) && s@ == p.event_data.command_line@,
            _ => r is None,
        },
{
    match event {
        Event::ProcessCreate(e) => Some(e.event_data.command_line.clone()),
        _ => None,
    }
}

/// The parent image path of a process creation.
pub fn get_parent_image(event: &Event) -> (r: Option<String>)
    ensures
        match *event {
            Event::ProcessCreate(p) => r matches Some(s) && s@ == p.event_data.parent_image@,
            _ => r is None,
        },
{
    match event {
        Event::ProcessCreate(e) => Some(e.event_data.parent_image.clone()),
        _ => None,
    }
}

/// Cuts a text that is longer than `max_len` bytes to its first `max_len - 3` bytes (none
/// when `max_len` is below 3), marking the cut with `...`; the cut must fall on a character
/// boundary.
pub fn truncate(s: &str, max_len: usize) -> (r: String)
    requires
        utf8_len(s@) > max_len ==> byte_boundary(s@, kept_bytes(max_len as nat)),
    ensures
        truncated(s@, max_len as nat, r@),
{
    let n = s.unicode_len();
    let mut total: u128 = 0;
    let mut i: usize = 0;
    assert(s@.subrange(0, 0) =~= Seq::<char>::empty());
    while i < n
        invariant
            n == s@.len(),
            i <= n,
            total == utf8_len(s@.subrange(0, i as int)),
            total <= 4 * i,
        decreases n - i,
    {
        assert(s@.subrange(0, i + 1).drop_last() =~= s@.subrange(0, i as int));
        total = total + char_width(s.get_char(i));
        i = i + 1;
    }
    assert(s@.subrange(0, n as int) =~= s@);
    if total <= max_len as u128 {
        return s.to_owned();
    }
    let keep: u128 = if max_len >= 3 {
        (max_len - 3) as u128
    } else {
        0
    };
    let mut acc: u128 = 0;
    let mut j: usize = 0;
    while j < n && acc < keep
        invariant
            n == s@.len(),
            j <= n,
            acc == utf8_len(s@.subrange(0, j as int)),
            acc <= 4 * j,
            j > 0 ==> utf8_len(s@.subrange(0, j - 1)) < keep,
        decreases n - j,
    {
        assert(s@.subrange(0, j + 1).drop_last() =~= s@.subrange(0, j as int));
        acc = acc + char_width(s.get_char(j));
        j = j + 1;
    }
    proof {
        let j0 = choose|j0: int| 0 <= j0 <= s@.len() && #[trigger] utf8_len(s@.subrange(0, j0)) == keep;
        if j0 < j {
            lemma_utf8_len_grows(s@, j0, j as int);
            if j > 0 && j0 < j - 1 {
                lemma_utf8_len_grows(s@, j0, j - 1);
            }
        } else if j0 > j {
            lemma_utf8_len_grows(s@, j as int, j0);
        }
    }
    let mut out = s.substring_char(0, j).to_owned();
    out.append("...");
    assert(utf8_len(s@.subrange(0, j as int)) == kept_bytes(max_len as nat));
    assert(out@ =~= s@.subrange(0, j as int) + "..."@);
    out
}

} // verus!
