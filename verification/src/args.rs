//! Reading the user's words into a validated request, before any device is
//! looked for.

use vstd::prelude::*;
use vstd::string::is_ascii_spec_bytes;
use vstd::utf8::is_ascii_chars;
use crate::address::{ipv4_of, parse_ipv4};
use crate::command::Intent;
use crate::model::{ErrorKind, ProtocolSelector};

verus! {

/// Whether `c` is one of the ASCII digits `0` to `9`.
pub open spec fn is_digit(c: char) -> bool {
    48 <= c as int <= 57
}

/// The number that the digit `c` stands for.
pub open spec fn digit_value(c: char) -> nat {
    (c as int - 48) as nat
}

/// Whether `s` holds ASCII digits only.
pub open spec fn all_digits(s: Seq<char>) -> bool {
    forall|i: int| 0 <= i < s.len() ==> is_digit(#[trigger] s[i])
}

/// The number that a string of decimal digits writes.
pub open spec fn decimal_value(s: Seq<char>) -> nat
    decreases s.len(),
{
    if s.len() == 0 {
        0
    } else {
        10 * decimal_value(s.drop_last()) + digit_value(s.last())
    }
}

/// The text without one leading plus sign, if it has one.
pub open spec fn unsigned_digits(s: Seq<char>) -> Seq<char> {
    if s.len() > 0 && s[0] == '+' {
        s.skip(1)
    } else {
        s
    }
}

/// The number that `s` writes, where `s` is an optional plus sign and then
/// one or more decimal digits and nothing else, and the number is at most
/// `max`.
pub open spec fn unsigned_of(s: Seq<char>, max: nat) -> Option<nat> {
    let digits = unsigned_digits(s);
    if digits.len() > 0 && all_digits(digits) && decimal_value(digits) <= max {
        Some(decimal_value(digits))
    } else {
        None
    }
}

/// A longer string of digits never writes a smaller number than its own
/// beginning does.
pub proof fn lemma_decimal_value_grows(s: Seq<char>, k: int)
    requires
        0 <= k <= s.len(),
    ensures
        decimal_value(s.take(k)) <= decimal_value(s),
    decreases s.len(),
{
    if k == s.len() {
        assert(s.take(k) =~= s);
    } else {
        lemma_decimal_value_grows(s.drop_last(), k);
        assert(s.drop_last().take(k) =~= s.take(k));
    }
}

/// The bytes of a text that holds ASCII characters only, one byte for each
/// character; `None` for any other text.
pub fn ascii_bytes(s: &str) -> (r: Option<&[u8]>)
    ensures
        r.is_some() == is_ascii_chars(s@),
        r.is_some() ==> r.unwrap()@.len() == s@.len(),
        r.is_some() ==> forall|i: int|
            0 <= i < s@.len() ==> (#[trigger] r.unwrap()@[i]) as int == s@[i] as int,
{
    if s.is_ascii() {
        let bytes = s.as_bytes();
        proof {
            is_ascii_spec_bytes(s);
            assert forall|i: int| 0 <= i < s@.len() implies (#[trigger] bytes@[i]) as int
                == s@[i] as int by {
                assert('\0' <= s@[i] <= '\u{7f}');
            }
        }
        Some(bytes)
    } else {
        None
    }
}

/// A text with a character outside ASCII writes no number.
pub proof fn lemma_number_is_ascii(s: Seq<char>, max: nat)
    requires
        !is_ascii_chars(s),
    ensures
        unsigned_of(s, max).is_none(),
{
    let i = choose|i: int| 0 <= i < s.len() && !('\0' <= #[trigger] s[i] <= '\u{7f}');
    let digits = unsigned_digits(s);
    if s[0] == '+' {
        assert(digits[i - 1] == s[i]);
        assert(!is_digit(digits[i - 1]));
    } else {
        assert(!is_digit(digits[i]));
    }
}

/// Reads an unsigned decimal number of at most `max`.
pub fn parse_unsigned(s: &str, max: u64) -> (r: Option<u64>)
    ensures
        match r {
            Some(v) => unsigned_of(s@, max as nat) == Some(v as nat),
            None => unsigned_of(s@, max as nat).is_none(),
        },
{
    let bytes = match ascii_bytes(s) {
        Some(bytes) => bytes,
        None => {
            proof {
                lemma_number_is_ascii(s@, max as nat);
            }
            return None;
        },
    };
    let n = bytes.len();
    let start: usize = if n > 0 && bytes[0] == 43 {
        1
    } else {
        0
    };
    let ghost digits = unsigned_digits(s@);
    assert(digits =~= s@.skip(start as int));
    if start == n {
        return None;
    }
    let mut acc: u64 = 0;
    let mut i: usize = start;
    assert(digits.take(0) =~= Seq::empty());
    while i < n
        invariant
            start <= i <= n,
            n == s@.len(),
            n == bytes@.len(),
            forall|j: int| 0 <= j < n ==> (#[trigger] bytes@[j]) as int == s@[j] as int,
            digits == s@.skip(start as int),
            digits == unsigned_digits(s@),
            all_digits(digits.take(i - start)),
            acc == decimal_value(digits.take(i - start)),
            acc <= max,
        decreases n - i,
    {
        let code = bytes[i];
        let ghost k = i - start;
        assert(digits[k] as int == code as int);
        assert(digits.take(k + 1).drop_last() =~= digits.take(k));
        assert(digits.take(k + 1).last() == digits[k]);
        if code < 48 || code > 57 {
            assert(!is_digit(digits[k]));
            return None;
        }
        let digit = (code - 48) as u64;
        proof {
            lemma_decimal_value_grows(digits, k + 1);
            assert(decimal_value(digits.take(k + 1)) == 10 * acc + digit);
        }
        if acc > max / 10 {
            return None;
        }
        if digit > max - acc * 10 {
            return None;
        }
        acc = acc * 10 + digit;
        i += 1;
        assert forall|j: int| 0 <= j < digits.take(i - start).len() implies is_digit(
            #[trigger] digits.take(i - start)[j],
        ) by {
            if j < k {
                assert(digits.take(k)[j] == digits.take(k + 1)[j]);
            }
        }
    }
    assert(digits.take(n - start) =~= digits);
    Some(acc)
}

/// Reads a port number: 0 to 65535.  Anything else is an invalid argument.
pub fn parse_port(s: &str) -> (r: Result<u16, ErrorKind>)
    ensures
        match r {
            Ok(port) => unsigned_of(s@, 65535) == Some(port as nat),
            Err(kind) => kind == ErrorKind::InvalidArgument && unsigned_of(s@, 65535).is_none(),
        },
{
    match parse_unsigned(s, 65535) {
        Some(v) => Ok(v as u16),
        None => Err(ErrorKind::InvalidArgument),
    }
}

/// Reads a lease duration in seconds; zero asks for a mapping that never
/// expires.
pub fn parse_lease(s: &str) -> (r: Result<u32, ErrorKind>)
    ensures
        match r {
            Ok(seconds) => unsigned_of(s@, 0xFFFF_FFFF) == Some(seconds as nat),
            Err(kind) => kind == ErrorKind::InvalidArgument && unsigned_of(
                s@,
                0xFFFF_FFFF,
            ).is_none(),
        },
{
    match parse_unsigned(s, 0xFFFF_FFFF) {
        Some(v) => Ok(v as u32),
        None => Err(ErrorKind::InvalidArgument),
    }
}

/// The discovery timeout used when the user names none.
pub const DEFAULT_TIMEOUT_SECONDS: u64 = 60;

/// Reads the discovery timeout in seconds; absent, it is 60.
pub fn parse_timeout(s: Option<&str>) -> (r: Result<u64, ErrorKind>)
    ensures
        match s {
            None => r == Ok::<u64, ErrorKind>(DEFAULT_TIMEOUT_SECONDS),
            Some(text) => match r {
                Ok(seconds) => unsigned_of(text@, 0xFFFF_FFFF_FFFF_FFFF) == Some(seconds as nat),
                Err(kind) => kind == ErrorKind::InvalidArgument && unsigned_of(
                    text@,
                    0xFFFF_FFFF_FFFF_FFFF,
                ).is_none(),
            },
        },
{
    match s {
        None => Ok(DEFAULT_TIMEOUT_SECONDS),
        Some(text) => match parse_unsigned(text, 0xFFFF_FFFF_FFFF_FFFF) {
            Some(v) => Ok(v),
            None => Err(ErrorKind::InvalidArgument),
        },
    }
}

/// The upper-case form of an ASCII letter; any other character unchanged.
pub open spec fn ascii_upper(c: char) -> int {
    if 97 <= c as int <= 122 {
        c as int - 32
    } else {
        c as int
    }
}

/// Whether `s` is `word` but for the case of its ASCII letters.  `word` is
/// expected in upper case.
pub open spec fn spells(s: Seq<char>, word: Seq<char>) -> bool {
    &&& s.len() == word.len()
    &&& forall|i: int| 0 <= i < s.len() ==> ascii_upper(#[trigger] s[i]) == word[i] as int
}

/// Whether `s` spells `word`, letter case aside.
pub fn spells_word(s: &str, word: &str) -> (r: bool)
    ensures
        r == spells(s@, word@),
{
    let n = s.unicode_len();
    if n != word.unicode_len() {
        return false;
    }
    let mut i: usize = 0;
    while i < n
        invariant
            i <= n,
            n == s@.len(),
            n == word@.len(),
            forall|j: int| 0 <= j < i ==> ascii_upper(#[trigger] s@[j]) == word@[j] as int,
        decreases n - i,
    {
        let code = s.get_char(i) as u32;
        let upper = if 97 <= code && code <= 122 {
            code - 32
        } else {
            code
        };
        if upper != word.get_char(i) as u32 {
            return false;
        }
        i += 1;
    }
    true
}

/// The selector that `s` names: `TCP`, `UDP` or `BOTH`, in any letter case.
pub open spec fn selector_of(s: Seq<char>) -> Option<ProtocolSelector> {
    if spells(s, "UDP"@) {
        Some(ProtocolSelector::Udp)
    } else if spells(s, "TCP"@) {
        Some(ProtocolSelector::Tcp)
    } else if spells(s, "BOTH"@) {
        Some(ProtocolSelector::Both)
    } else {
        None
    }
}

/// Reads a protocol selector.
pub fn parse_selector(s: &str) -> (r: Result<ProtocolSelector, ErrorKind>)
    ensures
        match r {
            Ok(selector) => selector_of(s@) == Some(selector),
            Err(kind) => kind == ErrorKind::InvalidArgument && selector_of(s@).is_none(),
        },
{
    if spells_word(s, "UDP") {
        Ok(ProtocolSelector::Udp)
    } else if spells_word(s, "TCP") {
        Ok(ProtocolSelector::Tcp)
    } else if spells_word(s, "BOTH") {
        Ok(ProtocolSelector::Both)
    } else {
        Err(ErrorKind::InvalidArgument)
    }
}

/// The lease that the optional text asks for: absent, it is zero.
pub open spec fn lease_of(lease: Option<&str>) -> Option<nat> {
    match lease {
        None => Some(0nat),
        Some(text) => unsigned_of(text@, 0xFFFF_FFFF),
    }
}

/// The word of a request that is malformed or missing.
#[derive(Clone, Copy, Debug, PartialEq, Eq, Structural)]
pub enum ArgumentFault {
    ExternalPort,
    MissingExternalPort,
    InternalPort,
    InternalHost,
    LeaseDuration,
    Protocol,
    MissingProtocol,
    Timeout,
}

impl ArgumentFault {
    /// A sentence for the user that names the word and says what it
    /// should have been.
    pub fn message(self) -> (text: &'static str)
        ensures
            text@ == match self {
                ArgumentFault::ExternalPort =>
                    "Invalid external port. Please choose an integer from 0 to 65535."@,
                ArgumentFault::MissingExternalPort => "Please specify an external port."@,
                ArgumentFault::InternalPort =>
                    "Invalid internal port. Please choose an integer from 0 to 65535."@,
                ArgumentFault::InternalHost =>
                    "Invalid internal host address. Please specify an IPv4 address."@,
                ArgumentFault::LeaseDuration => "Invalid duration. Choose an integer >= 0"@,
                ArgumentFault::Protocol => "Invalid protocol. TCP, UDP, and BOTH are valid."@,
                ArgumentFault::MissingProtocol =>
                    "Please specify a protocol. TCP, UDP, and BOTH are valid."@,
                ArgumentFault::Timeout => "Invalid timeout. Please choose an integer >= 0."@,
            },
    {
        match self {
            ArgumentFault::ExternalPort => {
                "Invalid external port. Please choose an integer from 0 to 65535."
            },
            ArgumentFault::MissingExternalPort => "Please specify an external port.",
            ArgumentFault::InternalPort => {
                "Invalid internal port. Please choose an integer from 0 to 65535."
            },
            ArgumentFault::InternalHost => {
                "Invalid internal host address. Please specify an IPv4 address."
            },
            ArgumentFault::LeaseDuration => "Invalid duration. Choose an integer >= 0",
            ArgumentFault::Protocol => "Invalid protocol. TCP, UDP, and BOTH are valid.",
            ArgumentFault::MissingProtocol => {
                "Please specify a protocol. TCP, UDP, and BOTH are valid."
            },
            ArgumentFault::Timeout => "Invalid timeout. Please choose an integer >= 0.",
        }
    }
}

/// What is wrong with the protocol word, if anything.
pub open spec fn protocol_fault_of(protocol: Option<&str>) -> Option<ArgumentFault> {
    match protocol {
        None => Some(ArgumentFault::MissingProtocol),
        Some(name) => if selector_of(name@).is_none() {
            Some(ArgumentFault::Protocol)
        } else {
            None
        },
    }
}

/// The first malformed word of an add request, in the order external
/// port, internal port, internal host, lease, protocol; `None` when all
/// are well-formed.
pub open spec fn add_fault_of(
    external_port: &str,
    internal_port: &str,
    internal_host: &str,
    protocol: Option<&str>,
    lease: Option<&str>,
) -> Option<ArgumentFault> {
    if unsigned_of(external_port@, 65535).is_none() {
        Some(ArgumentFault::ExternalPort)
    } else if unsigned_of(internal_port@, 65535).is_none() {
        Some(ArgumentFault::InternalPort)
    } else if ipv4_of(internal_host@).is_none() {
        Some(ArgumentFault::InternalHost)
    } else if lease_of(lease).is_none() {
        Some(ArgumentFault::LeaseDuration)
    } else {
        protocol_fault_of(protocol)
    }
}

/// The first malformed or missing word of a remove request, in the order
/// external port, protocol.  A request to clear looks at neither.
pub open spec fn remove_fault_of(
    clear_all: bool,
    external_port: Option<&str>,
    protocol: Option<&str>,
) -> Option<ArgumentFault> {
    if clear_all {
        None
    } else if external_port.is_none() {
        Some(ArgumentFault::MissingExternalPort)
    } else if unsigned_of(external_port.unwrap()@, 65535).is_none() {
        Some(ArgumentFault::ExternalPort)
    } else {
        protocol_fault_of(protocol)
    }
}

/// What is wrong with the timeout word, if anything.  No word is no fault.
pub open spec fn timeout_fault_of(timeout: Option<&str>) -> Option<ArgumentFault> {
    match timeout {
        None => None,
        Some(text) => if unsigned_of(text@, 0xFFFF_FFFF_FFFF_FFFF).is_none() {
            Some(ArgumentFault::Timeout)
        } else {
            None
        },
    }
}

/// Whether the words of an add request are all well-formed.
pub open spec fn add_words_valid(
    external_port: &str,
    internal_port: &str,
    internal_host: &str,
    protocol: Option<&str>,
    lease: Option<&str>,
) -> bool {
    &&& unsigned_of(external_port@, 65535).is_some()
    &&& unsigned_of(internal_port@, 65535).is_some()
    &&& ipv4_of(internal_host@).is_some()
    &&& lease_of(lease).is_some()
    &&& protocol.is_some()
    &&& selector_of(protocol.unwrap()@).is_some()
}

/// Builds the request to add a mapping.  It is `InvalidArgument` exactly
/// when a port, the host address, the lease or the protocol is malformed
/// or the protocol is missing.
pub fn add_intent(
    external_port: &str,
    internal_port: &str,
    internal_host: &str,
    protocol: Option<&str>,
    lease: Option<&str>,
    description: String,
) -> (r: Result<Intent, ErrorKind>)
    ensures
        match r {
            Ok(intent) => {
                &&& add_words_valid(external_port, internal_port, internal_host, protocol, lease)
                &&& intent matches Intent::Add {
                    selector,
                    external_port: ext,
                    internal_host: host,
                    internal_port: inner,
                    lease_seconds,
                    description: words,
                }
                &&& Some(selector) == selector_of(protocol.unwrap()@)
                &&& Some(ext as nat) == unsigned_of(external_port@, 65535)
                &&& Some(inner as nat) == unsigned_of(internal_port@, 65535)
                &&& Some(lease_seconds as nat) == lease_of(lease)
                &&& Some(host.bits as nat) == ipv4_of(internal_host@)
                &&& words == description
            },
            Err(kind) => {
                &&& kind == ErrorKind::InvalidArgument
                &&& !add_words_valid(external_port, internal_port, internal_host, protocol, lease)
            },
        },
{
    let ext = match parse_port(external_port) {
        Ok(port) => port,
        Err(kind) => {
            return Err(kind);
        },
    };
    let inner = match parse_port(internal_port) {
        Ok(port) => port,
        Err(kind) => {
            return Err(kind);
        },
    };
    let host = match parse_ipv4(internal_host) {
        Some(address) => address,
        None => {
            return Err(ErrorKind::InvalidArgument);
        },
    };
    let lease_seconds: u32 = match lease {
        None => 0,
        Some(text) => match parse_lease(text) {
            Ok(seconds) => seconds,
            Err(kind) => {
                return Err(kind);
            },
        },
    };
    let selector = match protocol {
        None => {
            return Err(ErrorKind::InvalidArgument);
        },
        Some(name) => match parse_selector(name) {
            Ok(selector) => selector,
            Err(kind) => {
                return Err(kind);
            },
        },
    };
    Ok(
        Intent::Add {
            selector,
            external_port: ext,
            internal_host: host,
            internal_port: inner,
            lease_seconds,
            description,
        },
    )
}

/// Whether the words of a remove request for one port are well-formed.
pub open spec fn remove_words_valid(external_port: Option<&str>, protocol: Option<&str>) -> bool {
    &&& external_port.is_some()
    &&& unsigned_of(external_port.unwrap()@, 65535).is_some()
    &&& protocol.is_some()
    &&& selector_of(protocol.unwrap()@).is_some()
}

/// Builds the request to remove mappings.  With `clear_all` the port and
/// the protocol are not looked at; without it, a missing or malformed one
/// is an invalid argument.
pub fn remove_intent(clear_all: bool, external_port: Option<&str>, protocol: Option<&str>) -> (r:
    Result<Intent, ErrorKind>)
    ensures
        clear_all ==> r == Ok::<Intent, ErrorKind>(Intent::RemoveAll),
        !clear_all ==> match r {
            Ok(intent) => {
                &&& remove_words_valid(external_port, protocol)
                &&& intent matches Intent::Remove { selector, external_port: ext }
                &&& Some(selector) == selector_of(protocol.unwrap()@)
                &&& Some(ext as nat) == unsigned_of(external_port.unwrap()@, 65535)
            },
            Err(kind) => {
                &&& kind == ErrorKind::InvalidArgument
                &&& !remove_words_valid(external_port, protocol)
            },
        },
{
    if clear_all {
        return Ok(Intent::RemoveAll);
    }
    let ext = match external_port {
        None => {
            return Err(ErrorKind::InvalidArgument);
        },
        Some(text) => match parse_port(text) {
            Ok(port) => port,
            Err(kind) => {
                return Err(kind);
            },
        },
    };
    let selector = match protocol {
        None => {
            return Err(ErrorKind::InvalidArgument);
        },
        Some(name) => match parse_selector(name) {
            Ok(selector) => selector,
            Err(kind) => {
                return Err(kind);
            },
        },
    };
    Ok(Intent::Remove { selector, external_port: ext })
}

/// Says what is wrong with the protocol word, if anything.
pub fn protocol_fault(protocol: Option<&str>) -> (r: Option<ArgumentFault>)
    ensures
        r == protocol_fault_of(protocol),
{
    match protocol {
        None => Some(ArgumentFault::MissingProtocol),
        Some(name) => match parse_selector(name) {
            Ok(_) => None,
            Err(_) => Some(ArgumentFault::Protocol),
        },
    }
}

/// Names the first malformed word of an add request.  There is one
/// exactly when `add_intent` refuses the same words.
pub fn add_fault(
    external_port: &str,
    internal_port: &str,
    internal_host: &str,
    protocol: Option<&str>,
    lease: Option<&str>,
) -> (r: Option<ArgumentFault>)
    ensures
        r == add_fault_of(external_port, internal_port, internal_host, protocol, lease),
        r.is_none() <==> add_words_valid(
            external_port,
            internal_port,
            internal_host,
            protocol,
            lease,
        ),
{
    if parse_port(external_port).is_err() {
        return Some(ArgumentFault::ExternalPort);
    }
    if parse_port(internal_port).is_err() {
        return Some(ArgumentFault::InternalPort);
    }
    if parse_ipv4(internal_host).is_none() {
        return Some(ArgumentFault::InternalHost);
    }
    match lease {
        None => {},
        Some(text) => {
            if parse_lease(text).is_err() {
                return Some(ArgumentFault::LeaseDuration);
            }
        },
    }
    protocol_fault(protocol)
}

/// Names the first malformed or missing word of a remove request.  There
/// is one exactly when `remove_intent` refuses the same words.
pub fn remove_fault(clear_all: bool, external_port: Option<&str>, protocol: Option<&str>) -> (r:
    Option<ArgumentFault>)
    ensures
        r == remove_fault_of(clear_all, external_port, protocol),
        !clear_all ==> (r.is_none() <==> remove_words_valid(external_port, protocol)),
{
    if clear_all {
        return None;
    }
    match external_port {
        None => {
            return Some(ArgumentFault::MissingExternalPort);
        },
        Some(text) => {
            if parse_port(text).is_err() {
                return Some(ArgumentFault::ExternalPort);
            }
        },
    }
    protocol_fault(protocol)
}

/// Says whether the timeout word is malformed.  It is exactly when
/// `parse_timeout` refuses it.
pub fn timeout_fault(timeout: Option<&str>) -> (r: Option<ArgumentFault>)
    ensures
        r == timeout_fault_of(timeout),
{
    match parse_timeout(timeout) {
        Ok(_) => None,
        Err(_) => Some(ArgumentFault::Timeout),
    }
}

/// A request has a word at fault exactly when its words are not all
/// well-formed: `add_intent` and `remove_intent` refuse a request exactly
/// when `add_fault` and `remove_fault` name a word of it.
pub proof fn lemma_fault_iff_refused(
    external_port: &str,
    internal_port: &str,
    internal_host: &str,
    protocol: Option<&str>,
    lease: Option<&str>,
)
    ensures
        add_fault_of(external_port, internal_port, internal_host, protocol, lease).is_none()
            <==> add_words_valid(external_port, internal_port, internal_host, protocol, lease),
        remove_fault_of(false, Some(external_port), protocol).is_none() <==> remove_words_valid(
            Some(external_port),
            protocol,
        ),
        remove_fault_of(false, None, protocol).is_some(),
        !remove_words_valid(None, protocol),
{
}

/// A port is accepted exactly when the number written lies in 0 to 65535:
/// no text is read as a number outside that range, and every number in it
/// is what the text wrote.
pub proof fn lemma_port_range(s: Seq<char>)
    ensures
        unsigned_of(s, 65535).is_some() <==> (unsigned_digits(s).len() > 0 && all_digits(
            unsigned_digits(s),
        ) && decimal_value(unsigned_digits(s)) <= 65535),
        unsigned_of(s, 65535).is_some() ==> unsigned_of(s, 65535).unwrap() <= 65535,
        s.len() > 0 && s[0] == '-' ==> unsigned_of(s, 65535).is_none(),
{
    if s.len() > 0 && s[0] == '-' {
        assert(unsigned_digits(s) == s);
        assert(!is_digit(s[0]));
    }
}

} // verus!
