//! Header lists: ordered pairs of a name and a value.
//!
//! Names are compared as they are written; the gateway writes them in lower case, as
//! they travel on the wire. A value is a sequence of bytes. A list is read by name as
//! an association list.

use vstd::prelude::*;
use vstd::slice::slice_to_vec;
use vstd::string::{StrSliceExecFns, StringSliceAdditionalSpecFns};
use crate::assoc::{first_value, lemma_first_value_extends, merged, with_entry, without};
use crate::text::views;

verus! {

/// The mathematical model of a header list.
pub type HeaderList = Seq<(Seq<char>, Seq<u8>)>;

/// A byte that may stand in a header value: a tab, or a byte from 32 on other than 127.
pub open spec fn value_byte(b: u8) -> bool {
    b == 9 || (b >= 32 && b != 127)
}

/// Whether the bytes may be sent as a header value.
pub open spec fn valid_value(bytes: Seq<u8>) -> bool {
    forall|i: int| 0 <= i < bytes.len() ==> value_byte(#[trigger] bytes[i])
}

/// `http::header::HeaderValue::from_str`, reached through hyper, accepts a text exactly
/// if every byte of it is a tab, or is at least 32 and is not 127.
#[verifier::external_body]
fn header_value_accepted(value: &str) -> (ok: bool)
    ensures
        ok == valid_value(value.spec_bytes()),
{
    hyper::header::HeaderValue::from_str(value).is_ok()
}

/// The bytes of `text`, if they may be sent as a header value.
pub fn text_value(text: &str) -> (r: Option<Vec<u8>>)
    ensures
        match r {
            Some(bytes) => valid_value(text.spec_bytes()) && bytes@ == text.spec_bytes(),
            None => !valid_value(text.spec_bytes()),
        },
{
    if header_value_accepted(text) {
        Some(text.as_bytes_vec())
    } else {
        None
    }
}

/// An ordered list of headers.
#[derive(Clone, Debug, PartialEq, Eq)]
pub struct Headers {
    entries: Vec<(String, Vec<u8>)>,
}

impl View for Headers {
    type V = HeaderList;

    closed spec fn view(&self) -> HeaderList {
        views(self.entries@)
    }
}

impl Headers {
    /// The empty list.
    pub fn new() -> (headers: Headers)
        ensures
            headers@ == HeaderList::empty(),
    {
        let headers = Headers { entries: Vec::new() };
        assert(headers@ == HeaderList::empty());
        headers
    }

    /// The number of headers in the list.
    pub fn len(&self) -> (n: usize)
        ensures
            n == self@.len(),
    {
        self.entries.len()
    }

    /// The name of the header at `index`.
    pub fn name_at(&self, index: usize) -> (name: &String)
        requires
            index < self@.len(),
        ensures
            name@ == self@[index as int].0,
    {
        &self.entries[index].0
    }

    /// The value of the header at `index`.
    pub fn value_at(&self, index: usize) -> (value: &Vec<u8>)
        requires
            index < self@.len(),
        ensures
            value@ == self@[index as int].1,
    {
        &self.entries[index].1
    }

    /// The value of the first header called `name`.
    pub fn get(&self, name: &str) -> (r: Option<&Vec<u8>>)
        ensures
            match r {
                Some(value) => first_value(self@, name@) == Some(value@),
                None => first_value(self@, name@) is None,
            },
    {
        let key = name.to_owned();
        let ghost all = self@;
        let mut i: usize = 0;
        assert(all.take(0) == HeaderList::empty());
        while i < self.entries.len()
            invariant
                i <= self.entries.len(),
                all == self@,
                key@ == name@,
                first_value(all.take(i as int), name@) is None,
            decreases self.entries.len() - i,
        {
            assert(all.take(i + 1).drop_last() == all.take(i as int));
            assert(all.take(i + 1).last() == all[i as int]);
            if self.entries[i].0 == key {
                proof {
                    lemma_first_value_extends(all, name@, i + 1);
                }
                return Some(&self.entries[i].1);
            }
            i += 1;
        }
        assert(all.take(self.entries.len() as int) == all);
        None
    }

    /// Adds a header at the end, beside any other of its name.
    pub fn append(&mut self, name: &str, value: Vec<u8>)
        ensures
            final(self)@ == old(self)@.push((name@, value@)),
    {
        let ghost before = self@;
        let entry = (name.to_owned(), value);
        self.entries.push(entry);
        assert(self@ == before.push((name@, value@)));
    }

    /// Removes every header called `name`.
    pub fn remove(&mut self, name: &str)
        ensures
            final(self)@ == without(old(self)@, name@),
    {
        let key = name.to_owned();
        let ghost all = self@;
        let ghost mut k: int = 0;
        let mut i: usize = 0;
        assert(all.take(0) == HeaderList::empty());
        assert(all.skip(0) == all);
        assert(without(all.take(0), name@) + all == all);
        while i < self.entries.len()
            invariant
                0 <= k <= all.len(),
                key@ == name@,
                i == without(all.take(k), name@).len(),
                self@ == without(all.take(k), name@) + all.skip(k),
            decreases all.len() - k,
        {
            let ghost kept = without(all.take(k), name@);
            let ghost current = self@;
            assert(k < all.len());
            assert(current[i as int] == all.skip(k)[0]);
            assert(all.take(k + 1).drop_last() == all.take(k));
            assert(all.take(k + 1).last() == all[k]);
            if self.entries[i].0 == key {
                self.entries.remove(i);
                assert(self@ == current.remove(i as int));
                assert(current.remove(i as int) == kept + all.skip(k + 1));
            } else {
                assert(current == kept.push(all[k]) + all.skip(k + 1));
                i += 1;
            }
            proof {
                k = k + 1;
            }
        }
        assert(all.skip(k).len() == 0);
        assert(all.take(k) == all);
        assert(without(all, name@) + all.skip(k) == without(all, name@));
    }

    /// Gives `name` the one value `value`: removes the headers called `name` and adds
    /// the new one at the end.
    pub fn insert(&mut self, name: &str, value: Vec<u8>)
        ensures
            final(self)@ == with_entry(old(self)@, name@, value@),
    {
        self.remove(name);
        self.append(name, value);
    }

    /// Sets every header of `extra` in this list, in the order of `extra`.
    pub fn merge(&mut self, extra: &Headers)
        ensures
            final(self)@ == merged(old(self)@, extra@),
    {
        let ghost base = self@;
        let ghost all = extra@;
        let mut i: usize = 0;
        assert(all.take(0) == HeaderList::empty());
        while i < extra.entries.len()
            invariant
                i <= extra.entries.len(),
                all == extra@,
                self@ == merged(base, all.take(i as int)),
            decreases extra.entries.len() - i,
        {
            assert(all.take(i + 1).drop_last() == all.take(i as int));
            assert(all.take(i + 1).last() == all[i as int]);
            let value = slice_to_vec(extra.entries[i].1.as_slice());
            self.insert(extra.entries[i].0.as_str(), value);
            i += 1;
        }
        assert(all.take(extra.entries.len() as int) == all);
    }
}

} // verus!
