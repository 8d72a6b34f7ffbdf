//! Names for the files of a Maildir.

use vstd::prelude::*;
use vstd::string::StringExecFns;

verus! {

/// What stands for `/` in a host name.
pub const ESCAPED_SLASH: &'static str = "\\057";

/// What stands for `:` in a host name.
pub const ESCAPED_COLON: &'static str = "\\072";

/// The character of a decimal digit.
pub open spec fn digit_char(digit: nat) -> char {
    if digit == 0 {
        '0'
    } else if digit == 1 {
        '1'
    } else if digit == 2 {
        '2'
    } else if digit == 3 {
        '3'
    } else if digit == 4 {
        '4'
    } else if digit == 5 {
        '5'
    } else if digit == 6 {
        '6'
    } else if digit == 7 {
        '7'
    } else if digit == 8 {
        '8'
    } else {
        '9'
    }
}

/// A number in decimal, without leading zeros.
pub open spec fn decimal(n: nat) -> Seq<char>
    decreases n,
{
    if n < 10 {
        seq![digit_char(n)]
    } else {
        decimal(n / 10).push(digit_char(n % 10))
    }
}

/// A text with each occurrence of one character replaced by a text.
pub open spec fn with_char_replaced(text: Seq<char>, from: char, to: Seq<char>) -> Seq<char>
    decreases text.len(),
{
    if text.len() == 0 {
        Seq::empty()
    } else if text[0] == from {
        to + with_char_replaced(text.skip(1), from, to)
    } else {
        seq![text[0]] + with_char_replaced(text.skip(1), from, to)
    }
}

/// A host name as it stands in a file name: `/` and `:` are escaped.
pub open spec fn escaped_hostname(raw: Seq<char>) -> Seq<char> {
    with_char_replaced(with_char_replaced(raw, '/', ESCAPED_SLASH@), ':', ESCAPED_COLON@)
}

/// The file name made of the time in seconds, the process id, the count
/// within the second, and the host name.
pub open spec fn filename(unix_time: u64, pid: u32, count: usize, hostname: Seq<char>) -> Seq<char> {
    decimal(unix_time as nat) + seq!['.'] + decimal(pid as nat) + seq!['_'] + decimal(count as nat)
        + seq!['.'] + hostname
}

/// `gethostname::gethostname`: the name of this host, as the system gives
/// it at the time of the call, read as text. Nothing is known of it
/// beforehand. The outside function panics where the system refuses to
/// tell the name.
#[verifier::external_body]
pub(crate) fn local_hostname() -> String {
    gethostname::gethostname().to_string_lossy().into_owned()
}

/// `str::replace` with a character as the pattern: every occurrence of
/// `from` gives way to `to`, and all else stays.
#[verifier::external_body]
pub(crate) fn replace_char(text: &str, from: char, to: &str) -> (r: String)
    ensures
        r@ == with_char_replaced(text@, from, to@),
{
    text.replace(from, to)
}

/// `u64::to_string`: the number in decimal.
#[verifier::external_body]
pub(crate) fn decimal_string(n: u64) -> (r: String)
    ensures
        r@ == decimal(n as nat),
{
    n.to_string()
}

/// A text that was rid of a character holds it no more, if what took its
/// place does not hold it.
pub proof fn lemma_replaced_char_is_gone(text: Seq<char>, from: char, to: Seq<char>)
    requires
        !to.contains(from),
    ensures
        !with_char_replaced(text, from, to).contains(from),
    decreases text.len(),
{
    if text.len() > 0 {
        lemma_replaced_char_is_gone(text.skip(1), from, to);
    }
}

/// Replacing a character by a text without `other` keeps a text free of
/// `other`.
pub proof fn lemma_replacing_keeps_free(text: Seq<char>, from: char, to: Seq<char>, other: char)
    requires
        !to.contains(other),
        !text.contains(other),
    ensures
        !with_char_replaced(text, from, to).contains(other),
    decreases text.len(),
{
    if text.len() > 0 {
        let rest = text.skip(1);
        assert forall|j: int| 0 <= j < rest.len() implies rest[j] != other by {}
        lemma_replacing_keeps_free(rest, from, to, other);
    }
}

/// An escaped host name holds neither `/` nor `:`, whatever the host is
/// called.
pub proof fn lemma_escaped_hostname_is_clean(raw: Seq<char>)
    ensures
        !escaped_hostname(raw).contains('/'),
        !escaped_hostname(raw).contains(':'),
{
    reveal_strlit("\\057");
    reveal_strlit("\\072");
    let slash = ESCAPED_SLASH@;
    let colon = ESCAPED_COLON@;
    assert forall|i: int| 0 <= i < 4 implies slash[i] != '/' && slash[i] != ':' by {}
    assert forall|i: int| 0 <= i < 4 implies colon[i] != '/' && colon[i] != ':' by {}
    let first = with_char_replaced(raw, '/', slash);
    lemma_replaced_char_is_gone(raw, '/', slash);
    lemma_replacing_keeps_free(first, ':', colon, '/');
    lemma_replaced_char_is_gone(first, ':', colon);
}

/// A generator of file names that are likely unique within a Maildir.
///
/// It counts the names that it made within one second, and starts anew when
/// the clock moves on.
pub struct EmailFilenameGenerator {
    count: usize,
    max_seen_unix_time: u64,
    hostname: String,
}

/// A generator as mathematical values.
pub ghost struct GeneratorView {
    pub count: nat,
    pub max_seen_unix_time: nat,
    pub hostname: Seq<char>,
}

impl View for EmailFilenameGenerator {
    type V = GeneratorView;

    closed spec fn view(&self) -> GeneratorView {
        GeneratorView {
            count: self.count as nat,
            max_seen_unix_time: self.max_seen_unix_time as nat,
            hostname: self.hostname@,
        }
    }
}

/// Whether a generator at `count` can make a name at the given time: the
/// clock has moved on, or the count can still grow.
pub open spec fn can_count(g: GeneratorView, unix_time: u64) -> bool {
    g.max_seen_unix_time < unix_time || g.count < usize::MAX
}

/// The generator after it made a name at the given time.
pub open spec fn counted(g: GeneratorView, unix_time: u64) -> GeneratorView {
    if g.max_seen_unix_time < unix_time {
        GeneratorView { count: 0, max_seen_unix_time: unix_time as nat, ..g }
    } else {
        GeneratorView { count: g.count + 1, ..g }
    }
}

impl EmailFilenameGenerator {
    /// A generator for this host.
    pub fn new() -> (generator: EmailFilenameGenerator)
        ensures
            generator@.count == 0,
            generator@.max_seen_unix_time == 0,
            exists|raw: Seq<char>| generator@.hostname == escaped_hostname(raw),
    {
        let raw = local_hostname();
        EmailFilenameGenerator::for_host(raw.as_str())
    }

    /// A generator for the host of the given name.
    pub fn for_host(raw: &str) -> (generator: EmailFilenameGenerator)
        ensures
            generator@ == (GeneratorView {
                count: 0,
                max_seen_unix_time: 0,
                hostname: escaped_hostname(raw@),
            }),
    {
        let without_slash = replace_char(raw, '/', ESCAPED_SLASH);
        let hostname = replace_char(without_slash.as_str(), ':', ESCAPED_COLON);
        EmailFilenameGenerator { count: 0, max_seen_unix_time: 0, hostname }
    }

    /// The next file name, for the time and the process given.
    ///
    /// The count starts at 0 when the clock has moved past the latest time
    /// seen, and grows by one otherwise. `None` where the count cannot grow
    /// any more; the generator then stays as it is.
    pub fn next(&mut self, unix_time: u64, pid: u32) -> (name: Option<String>)
        ensures
            match name {
                Some(n) => can_count(old(self)@, unix_time) && final(self)@ == counted(
                    old(self)@,
                    unix_time,
                ) && n@ == filename(
                    unix_time,
                    pid,
                    final(self)@.count as usize,
                    final(self)@.hostname,
                ),
                None => !can_count(old(self)@, unix_time) && final(self)@ == old(self)@,
            },
    {
        if self.max_seen_unix_time < unix_time {
            self.max_seen_unix_time = unix_time;
            self.count = 0;
        } else if self.count < usize::MAX {
            self.count = self.count + 1;
        } else {
            return None;
        }
        let mut name = decimal_string(unix_time);
        name.append(".");
        name.append(decimal_string(pid as u64).as_str());
        name.append("_");
        name.append(decimal_string(self.count as u64).as_str());
        name.append(".");
        name.append(self.hostname.as_str());
        proof {
            reveal_strlit(".");
            reveal_strlit("_");
        }
        Some(name)
    }
}

} // verus!
