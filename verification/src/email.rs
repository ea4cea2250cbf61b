//! Address validation and spoofed-mail checks.
//!
//! The mail tool accepts a recipient address only in the shape
//! `local@domain.tld`; the message search tool compares a message's reply-to,
//! sender and from addresses to flag possible spoofing.

use vstd::prelude::*;
use vstd::string::StrSliceExecFns;
use crate::text::str_eq;

verus! {

/// The characters the address check rejects as whitespace: the Unicode
/// white-space set, as `char::is_whitespace` draws it.
pub open spec fn spec_is_whitespace(c: char) -> bool {
    let u = c as u32;
    ||| u == 0x20
    ||| 0x9 <= u && u <= 0xD
    ||| u == 0x85
    ||| u == 0xA0
    ||| u == 0x1680
    ||| 0x2000 <= u && u <= 0x200A
    ||| u == 0x2028
    ||| u == 0x2029
    ||| u == 0x202F
    ||| u == 0x205F
    ||| u == 0x3000
}

/// Decides whitespace-ness.
pub fn is_whitespace_char(c: char) -> (r: bool)
    ensures
        r == spec_is_whitespace(c),
{
    let u = c as u32;
    u == 0x20 || (0x9 <= u && u <= 0xD) || u == 0x85 || u == 0xA0 || u == 0x1680 || (0x2000 <= u
        && u <= 0x200A) || u == 0x2028 || u == 0x2029 || u == 0x202F || u == 0x205F || u == 0x3000
}

/// Whether `a` is the position of the one `@` of `s`, with a non-empty local
/// part before it.
pub open spec fn at_position_ok(s: Seq<char>, a: int) -> bool {
    &&& 0 < a < s.len()
    &&& s[a] == '@'
    &&& forall|i: int| 0 <= i < s.len() && s[i] == '@' ==> i == a
}

/// Whether `d` is a dot splitting the domain: at least one character between
/// the `@` at `a` and the dot, and at least one after the dot.
pub open spec fn dot_position_ok(s: Seq<char>, a: int, d: int) -> bool {
    &&& a + 2 <= d <= s.len() - 2
    &&& s[d] == '.'
}

/// The address shape the mail tool accepts: a non-empty local part, a single
/// `@`, and a domain holding a dot with at least one character on each side
/// of it — no whitespace anywhere.
pub open spec fn spec_valid_email(s: Seq<char>) -> bool {
    &&& forall|i: int| 0 <= i < s.len() ==> !spec_is_whitespace(#[trigger] s[i])
    &&& exists|a: int|
        #[trigger] at_position_ok(s, a) && exists|d: int| #[trigger] dot_position_ok(s, a, d)
}

/// Decides whether an address has the accepted shape.
#[verifier::loop_isolation(false)]
pub fn is_valid_email(s: &str) -> (r: bool)
    ensures
        r == spec_valid_email(s@),
{
    let n = s.unicode_len();
    let mut at_found = false;
    let mut at_pos: usize = 0;
    let mut i: usize = 0;
    while i < n
        invariant
            i <= n,
            forall|k: int| 0 <= k < i ==> !spec_is_whitespace(#[trigger] s@[k]),
            at_found ==> at_pos < i && s@[at_pos as int] == '@' && forall|k: int|
                0 <= k < i && #[trigger] s@[k] == '@' ==> k == at_pos,
            !at_found ==> forall|k: int| 0 <= k < i ==> #[trigger] s@[k] != '@',
        decreases n - i,
    {
        let c = s.get_char(i);
        if is_whitespace_char(c) {
            return false;
        }
        if c == '@' {
            if at_found {
                proof {
                    assert forall|a: int| !at_position_ok(s@, a) by {
                        if at_position_ok(s@, a) {
                            assert(at_pos == a);
                            assert(i == a);
                        }
                    }
                }
                return false;
            }
            at_found = true;
            at_pos = i;
        }
        i += 1;
    }
    if !at_found {
        proof {
            assert forall|a: int| !at_position_ok(s@, a) by {}
        }
        return false;
    }
    if at_pos == 0 {
        proof {
            assert forall|a: int| !at_position_ok(s@, a) by {
                if at_position_ok(s@, a) {
                    assert(a == 0);
                }
            }
        }
        return false;
    }
    let mut j: usize = at_pos + 1;
    while j < n
        invariant
            at_pos < j <= n,
            forall|d: int| at_pos < d < j ==> !dot_position_ok(s@, at_pos as int, d),
        decreases n - j,
    {
        let c = s.get_char(j);
        if c == '.' && j - at_pos >= 2 && j + 1 < n {
            proof {
                assert(at_position_ok(s@, at_pos as int));
                assert(dot_position_ok(s@, at_pos as int, j as int));
            }
            return true;
        }
        j += 1;
    }
    proof {
        assert forall|a: int|
            !(at_position_ok(s@, a) && exists|d: int| #[trigger] dot_position_ok(s@, a, d)) by {
            if at_position_ok(s@, a) {
                assert(a == at_pos);
                if exists|d: int| #[trigger] dot_position_ok(s@, a, d) {
                    let d = choose|d: int| #[trigger] dot_position_ok(s@, a, d);
                    assert(at_pos < d < n);
                    assert(!dot_position_ok(s@, at_pos as int, d));
                }
            }
        }
    }
    false
}

/// A validated recipient address for the mail tool.
#[derive(Debug)]
pub struct Email {
    addr: String,
}

impl Email {
    /// The address's characters.
    pub closed spec fn spec_addr(self) -> Seq<char> {
        self.addr@
    }

    /// Validity is established at construction and never lost.
    pub open spec fn wf(self) -> bool {
        spec_valid_email(self.spec_addr())
    }

    /// Validates an address: accepts exactly the accepted shape, handing an
    /// invalid input back unchanged.
    pub fn parse(addr: String) -> (r: Result<Email, String>)
        ensures
            match r {
                Ok(e) => spec_valid_email(addr@) && e.wf() && e.spec_addr() == addr@,
                Err(rejected) => !spec_valid_email(addr@) && rejected@ == addr@,
            },
    {
        if is_valid_email(addr.as_str()) {
            Ok(Email { addr })
        } else {
            Err(addr)
        }
    }

    /// The validated address.
    pub fn as_str(&self) -> (r: &str)
        ensures
            r@ == self.spec_addr(),
    {
        self.addr.as_str()
    }
}

/// What a missing field displays as.
pub open spec fn spec_text_or_unknown(v: Option<Seq<char>>) -> Seq<char> {
    match v {
        Some(s) => s,
        None => "Unknown"@,
    }
}

/// The text of an optional field, or its placeholder.
pub fn text_or_unknown(v: &Option<String>) -> (r: String)
    ensures
        r@ == spec_text_or_unknown(v.deep_view()),
{
    match v {
        Some(s) => s.clone(),
        None => "Unknown".to_owned(),
    }
}

/// One message, as the spoofed-mail check reads it: the subject and the
/// addresses, each absent where the message omitted it.
#[derive(Debug)]
pub struct EmailMessage {
    pub subject: Option<String>,
    pub reply_to: Vec<Option<String>>,
    pub sender: Option<String>,
    pub from: Option<String>,
}

/// The reply-to addresses of a message, each paired with whether it equals
/// the from address — the comparison that decides how the line is rendered.
pub fn reply_to_checks(msg: &EmailMessage) -> (r: Vec<(String, bool)>)
    ensures
        r@.len() == msg.reply_to@.len(),
        forall|i: int|
            0 <= i < r@.len() ==> {
                let addr = spec_text_or_unknown(msg.reply_to@[i].deep_view());
                let from = spec_text_or_unknown(msg.from.deep_view());
                (#[trigger] r@[i]).0@ == addr && r@[i].1 == (addr == from)
            },
{
    let from_addr = text_or_unknown(&msg.from);
    let n = msg.reply_to.len();
    let mut out: Vec<(String, bool)> = Vec::new();
    let mut i: usize = 0;
    while i < n
        invariant
            n == msg.reply_to@.len(),
            i <= n,
            from_addr@ == spec_text_or_unknown(msg.from.deep_view()),
            out@.len() == i,
            forall|k: int|
                0 <= k < i ==> {
                    let addr = spec_text_or_unknown(msg.reply_to@[k].deep_view());
                    let from = spec_text_or_unknown(msg.from.deep_view());
                    (#[trigger] out@[k]).0@ == addr && out@[k].1 == (addr == from)
                },
        decreases n - i,
    {
        let addr = text_or_unknown(&msg.reply_to[i]);
        let agrees = str_eq(addr.as_str(), from_addr.as_str());
        out.push((addr, agrees));
        i += 1;
    }
    out
}

/// The sender and from addresses of a message (or their placeholders), and
/// whether they agree; disagreement marks possible spoofing.
pub fn sender_from_check(msg: &EmailMessage) -> (r: (String, String, bool))
    ensures
        r.0@ == spec_text_or_unknown(msg.sender.deep_view()),
        r.1@ == spec_text_or_unknown(msg.from.deep_view()),
        r.2 == (r.0@ == r.1@),
{
    let sender = text_or_unknown(&msg.sender);
    let from = text_or_unknown(&msg.from);
    let agrees = str_eq(sender.as_str(), from.as_str());
    (sender, from, agrees)
}

} // verus!
