//! A message, normalized for inspection and kept raw for delivery.

use vstd::prelude::*;
use vstd::slice::slice_subrange;
use crate::ascii::LF;
use crate::deliver::{Action, Delivery, DeliveryDurability, DeliveryView, Event, Stage, transition};
use crate::error::EmailError;
use crate::fields::{HeaderFields, field_map, texts};
use crate::filename::{EmailFilenameGenerator, GeneratorView, can_count, counted, escaped_hostname};
use crate::normalize::{field_occurrences, normalize_email, normalized};
use crate::parser::{HeaderPatterns, opt_view, patterns_compile};
use crate::scan::is_newline;
use crate::text::{lowercase, to_lowercase};

verus! {

/// Whether an empty line starts after the line feed at `index`: a line
/// feed stands there, and a line feed or a carriage return follows it.
pub open spec fn empty_line_at(data: Seq<u8>, index: int) -> bool {
    0 <= index && index + 1 < data.len() && data[index] == LF && is_newline(data[index + 1])
}

/// Where the body of a message begins, searched from `from` on: at the line
/// feed before the first empty line, or at the end where no line is empty.
pub open spec fn body_split_from(data: Seq<u8>, from: int) -> int
    decreases data.len() - from,
{
    if from + 1 >= data.len() {
        data.len() as int
    } else if empty_line_at(data, from) {
        from
    } else {
        body_split_from(data, from + 1)
    }
}

/// Where the body of a message begins. The empty line that parts the header
/// from the body belongs to the body.
pub open spec fn body_split(data: Seq<u8>) -> int {
    body_split_from(data, 0)
}

/// The split lies within the message.
pub proof fn lemma_body_split_bounds(data: Seq<u8>, from: int)
    requires
        0 <= from <= data.len(),
    ensures
        from <= body_split_from(data, from) <= data.len(),
        body_split_from(data, from) < data.len() ==> empty_line_at(
            data,
            body_split_from(data, from),
        ),
        forall|i: int| from <= i < body_split_from(data, from) ==> !empty_line_at(data, i),
    decreases data.len() - from,
{
    if from + 1 < data.len() && !empty_line_at(data, from) {
        lemma_body_split_bounds(data, from + 1);
    }
}

/// The normalized header of a message: its normalized bytes before the
/// split.
pub open spec fn header_of(raw: Seq<u8>) -> Seq<u8> {
    normalized(raw).take(body_split(normalized(raw)))
}

/// The normalized body of a message: its normalized bytes from the split
/// on.
pub open spec fn body_of(raw: Seq<u8>) -> Seq<u8> {
    normalized(raw).skip(body_split(normalized(raw)))
}

/// The header and the body of a message, joined, are its normalized bytes,
/// whatever the message is: the split lies within them, and cuts them in
/// two without loss.
pub proof fn lemma_header_and_body_are_data(raw: Seq<u8>)
    ensures
        0 <= body_split(normalized(raw)) <= normalized(raw).len(),
        header_of(raw) + body_of(raw) == normalized(raw),
{
    lemma_body_split_bounds(normalized(raw), 0);
}

/// Finds the line feed before the first empty line.
pub fn find_empty_line(data: &[u8]) -> (r: Option<usize>)
    ensures
        match r {
            Some(index) => index == body_split(data@) && index < data@.len(),
            None => body_split(data@) == data@.len(),
        },
{
    let len: usize = data.len();
    let mut i: usize = 0;
    while i < len && len - i > 1
        invariant
            i <= len,
            len == data@.len(),
            body_split_from(data@, i as int) == body_split(data@),
        decreases len - i,
    {
        if data[i] == LF && (data[i + 1] == LF || data[i + 1] == crate::ascii::CR) {
            return Some(i);
        }
        i = i + 1;
    }
    None
}

/// A message.
pub struct Email {
    data: Vec<u8>,
    normalized_data: Vec<u8>,
    body_index: usize,
    deliver_path: Option<Vec<u8>>,
    fields: HeaderFields,
    email_filename_gen: EmailFilenameGenerator,
    delivery_durability: DeliveryDurability,
}

/// A message as mathematical values.
pub ghost struct EmailView {
    /// The bytes that the message was made from.
    pub raw: Seq<u8>,
    /// The normalized bytes.
    pub normalized: Seq<u8>,
    /// Where the body begins in the normalized bytes.
    pub body_index: int,
    /// The header fields: for each name, in lower case, its values.
    pub fields: Map<Seq<char>, Seq<Seq<char>>>,
    /// The path of the file that the message was last written to.
    pub deliver_path: Option<Seq<u8>>,
    /// The durability asked of deliveries.
    pub durability: DeliveryDurability,
    /// The generator of the names of delivered files.
    pub generator: GeneratorView,
}

/// What holds of every message: its normalized bytes, its fields and its
/// split are those of its raw bytes.
pub open spec fn email_ok(email: EmailView) -> bool {
    &&& email.normalized == normalized(email.raw)
    &&& email.fields == field_map(field_occurrences(email.raw))
    &&& email.body_index == body_split(email.normalized)
}

impl View for Email {
    type V = EmailView;

    closed spec fn view(&self) -> EmailView {
        EmailView {
            raw: self.data@,
            normalized: self.normalized_data@,
            body_index: self.body_index as int,
            fields: self.fields@,
            deliver_path: opt_view(self.deliver_path),
            durability: self.delivery_durability,
            generator: self.email_filename_gen@,
        }
    }
}

impl Email {
    /// Makes a message from its bytes.
    ///
    /// Fails only where the regex engine refuses one of the patterns that
    /// reading a header takes.
    pub fn from_vec(data: Vec<u8>) -> (r: Result<Email, EmailError>)
        ensures
            r is Ok <==> patterns_compile(),
            r matches Err(e) ==> e is Regex,
            r matches Ok(email) ==> {
                &&& email_ok(email@)
                &&& email@.raw == data@
                &&& email@.deliver_path is None
                &&& email@.durability == DeliveryDurability::FileAndDirSync
                &&& email@.generator.count == 0
                &&& email@.generator.max_seen_unix_time == 0
                &&& exists|host: Seq<char>| email@.generator.hostname == escaped_hostname(host)
            },
    {
        let patterns = match HeaderPatterns::new() {
            Ok(p) => p,
            Err(e) => {
                return Err(EmailError::Regex(e));
            },
        };
        let (normalized_data, fields) = normalize_email(data.as_slice(), &patterns);
        let body_index: usize = match find_empty_line(normalized_data.as_slice()) {
            Some(index) => index,
            None => normalized_data.len(),
        };
        Ok(
            Email {
                data,
                normalized_data,
                body_index,
                deliver_path: None,
                fields,
                email_filename_gen: EmailFilenameGenerator::new(),
                delivery_durability: DeliveryDurability::FileAndDirSync,
            },
        )
    }

    /// Sets the durability asked of the deliveries of this message.
    pub fn set_delivery_durability(&mut self, delivery_durability: DeliveryDurability)
        ensures
            final(self)@ == (EmailView { durability: delivery_durability, ..old(self)@ }),
    {
        self.delivery_durability = delivery_durability;
    }

    /// The value of a header field, if the message has it. Of a field that
    /// occurs several times, this is the value of the first occurrence. The
    /// case of the name makes no difference.
    pub fn header_field(&self, name: &str) -> (r: Option<&str>)
        ensures
            r is Some <==> self@.fields.contains_key(lowercase(name@)),
            r matches Some(value) ==> self@.fields[lowercase(name@)].len() > 0 && value@
                == self@.fields[lowercase(name@)][0],
    {
        let key = to_lowercase(name);
        match self.fields.get(key.as_str()) {
            Some(values) => {
                Some(values[0].as_str())
            },
            None => None,
        }
    }

    /// The names of the header fields of the message, in lower case, each
    /// once.
    pub fn header_field_names(&self) -> (r: Vec<&str>)
        ensures
            forall|name: Seq<char>|
                self@.fields.contains_key(name) <==> exists|i: int|
                    0 <= i < r@.len() && (#[trigger] r@[i])@ == name,
            forall|i: int, j: int| 0 <= i < j < r@.len() ==> r@[i]@ != r@[j]@,
    {
        self.fields.field_names()
    }

    /// The values of all occurrences of a header field, in the order of
    /// the message, if the message has the field.
    pub fn header_field_all_occurrences(&self, name: &str) -> (r: Option<&Vec<String>>)
        ensures
            r is Some <==> self@.fields.contains_key(lowercase(name@)),
            r matches Some(values) ==> texts(values@) == self@.fields[lowercase(name@)],
    {
        let key = to_lowercase(name);
        self.fields.get(key.as_str())
    }

    /// Whether the message was written to a Maildir.
    pub fn has_been_delivered(&self) -> (r: bool)
        ensures
            r == self@.deliver_path is Some,
    {
        self.deliver_path.is_some()
    }

    /// The normalized bytes of the message.
    pub fn data(&self) -> (r: &[u8])
        ensures
            r@ == self@.normalized,
            email_ok(self@) ==> r@ == normalized(self@.raw),
    {
        self.normalized_data.as_slice()
    }

    /// The normalized bytes of the header.
    pub fn header(&self) -> (r: &[u8])
        requires
            email_ok(self@),
        ensures
            r@ == header_of(self@.raw),
    {
        proof {
            lemma_body_split_bounds(self@.normalized, 0);
        }
        slice_subrange(self.normalized_data.as_slice(), 0, self.body_index)
    }

    /// The normalized bytes of the body.
    pub fn body(&self) -> (r: &[u8])
        requires
            email_ok(self@),
        ensures
            r@ == body_of(self@.raw),
    {
        proof {
            lemma_body_split_bounds(self@.normalized, 0);
        }
        let len: usize = self.normalized_data.len();
        slice_subrange(self.normalized_data.as_slice(), self.body_index, len)
    }

    /// The bytes that the message was made from.
    pub fn raw_data(&self) -> (r: &[u8])
        ensures
            r@ == self@.raw,
    {
        self.data.as_slice()
    }

    /// The durability asked of the deliveries of this message.
    pub fn delivery_durability(&self) -> (r: DeliveryDurability)
        ensures
            r == self@.durability,
    {
        self.delivery_durability
    }

    /// The path of the file that the message was last written to.
    pub fn deliver_path(&self) -> (r: Option<&[u8]>)
        ensures
            crate::normalize::opt_slice_view(r) == self@.deliver_path,
    {
        match &self.deliver_path {
            Some(path) => Some(path.as_slice()),
            None => None,
        }
    }

    /// Starts a delivery of this message into a Maildir. A message that was
    /// written before is first tried to be hard-linked to that file.
    pub fn begin_delivery<E>(&self) -> (r: (Delivery<E>, Action<E>))
        ensures
            r.0@ == (DeliveryView {
                stage: Stage::<E>::Dirs,
                durability: self@.durability,
                relink: self@.deliver_path is Some,
                name: Seq::<char>::empty(),
            }),
            r.1 == Action::<E>::CreateDirs,
    {
        Delivery::begin(self.delivery_durability, self.deliver_path.is_some())
    }

    /// Takes a delivery of this message one step further, drawing file
    /// names from the generator of this message.
    pub fn step_delivery<E>(&mut self, delivery: &mut Delivery<E>, event: Event<E>) -> (action:
        Action<E>)
        ensures
            final(delivery)@.durability == old(delivery)@.durability,
            final(delivery)@.relink == old(delivery)@.relink,
            (final(delivery)@.stage, action) == transition(
                old(delivery)@.stage,
                old(delivery)@.durability,
                event,
                event matches Event::Clock { unix_time, pid } && can_count(
                    old(self)@.generator,
                    unix_time,
                ),
                old(delivery)@.relink,
            ),
            final(self)@ == (EmailView { generator: final(self)@.generator, ..old(self)@ }),
            final(self)@.generator == old(self)@.generator || (event matches Event::Clock {
                unix_time,
                pid,
            } && final(self)@.generator == counted(old(self)@.generator, unix_time)),
    {
        delivery.step(&mut self.email_filename_gen, event)
    }

    /// Takes note of a delivery that has ended well: where the message was
    /// written anew, the path of the file becomes the one that later
    /// deliveries link to.
    pub fn record_delivery(&mut self, written: bool, path: Vec<u8>)
        ensures
            final(self)@ == (EmailView {
                deliver_path: if written {
                    Some(path@)
                } else {
                    old(self)@.deliver_path
                },
                ..old(self)@
            }),
    {
        if written {
            self.deliver_path = Some(path);
        }
    }
}

} // verus!
