//! The header map: from header lines to a lookup by name.

use crate::text::{
    chars_of, find, first_match, lemma_first_match_some, matches_at, same, texts, trim_bounds,
    trimmed,
};
use vstd::prelude::*;

verus! {

/// Name and value of a header line. A line with a colon gives what stands
/// before the first colon and what stands after it, both without the white
/// space around them. A line without one is a name with an empty value.
pub open spec fn header_entry(line: Seq<char>) -> (Seq<char>, Seq<char>) {
    match first_match(line, seq![':'], 0) {
        Some(i) => (
            trimmed(line.subrange(0, i)),
            trimmed(line.subrange(i + 1, line.len() as int)),
        ),
        None => (line, Seq::empty()),
    }
}

/// The map that header lines make: each line enters its name and value, and
/// a later line replaces an earlier one of the same name.
pub open spec fn header_map(lines: Seq<Seq<char>>) -> Map<Seq<char>, Seq<char>>
    decreases lines.len(),
{
    if lines.len() == 0 {
        Map::empty()
    } else {
        let entry = header_entry(lines.last());
        header_map(lines.drop_last()).insert(entry.0, entry.1)
    }
}

/// A map from header names to header values. Names are compared character
/// by character: `User-Agent` and `user-agent` are two names.
#[derive(Debug)]
pub struct HeaderMap {
    entries: Vec<(String, String)>,
}

impl View for HeaderMap {
    type V = Map<Seq<char>, Seq<char>>;

    closed spec fn view(&self) -> Map<Seq<char>, Seq<char>> {
        Map::new(
            |name: Seq<char>| self.position(name) is Some,
            |name: Seq<char>| self.entries[self.position(name).unwrap()].1@,
        )
    }
}

impl HeaderMap {
    /// The map is well formed: no name occurs twice among its entries.
    pub closed spec fn wf(&self) -> bool {
        forall|i: int, j: int|
            0 <= i < j < self.entries.len() ==> self.entries[i].0@ != self.entries[j].0@
    }

    /// Where the entry of `name` stands, if there is one.
    spec fn position(&self, name: Seq<char>) -> Option<int> {
        if exists|i: int| 0 <= i < self.entries.len() && self.entries[i].0@ == name {
            Some(choose|i: int| 0 <= i < self.entries.len() && self.entries[i].0@ == name)
        } else {
            None
        }
    }

    /// The empty map.
    pub fn new() -> (map: HeaderMap)
        ensures
            map.wf(),
            map@ == Map::<Seq<char>, Seq<char>>::empty(),
    {
        let map = HeaderMap { entries: Vec::new() };
        assert(map@ =~= Map::<Seq<char>, Seq<char>>::empty());
        map
    }

    /// Where the entry of `name` stands.
    fn locate(&self, name: &str) -> (found: Option<usize>)
        requires
            self.wf(),
        ensures
            match found {
                Some(i) => i < self.entries.len() && self.position(name@) == Some(i as int),
                None => self.position(name@) is None,
            },
    {
        let wanted = chars_of(name);
        let mut i: usize = 0;
        while i < self.entries.len()
            invariant
                i <= self.entries.len(),
                self.wf(),
                wanted@ == name@,
                forall|j: int| 0 <= j < i ==> self.entries[j].0@ != name@,
            decreases self.entries.len() - i,
        {
            let key = chars_of(self.entries[i].0.as_str());
            if same(key.as_slice(), wanted.as_slice()) {
                assert(self.entries[i as int].0@ == name@);
                return Some(i);
            }
            i += 1;
        }
        None
    }

    /// Enters `value` under `name`, in place of what stood there.
    pub fn insert(&mut self, name: String, value: String)
        requires
            old(self).wf(),
        ensures
            final(self).wf(),
            final(self)@ == old(self)@.insert(name@, value@),
    {
        let ghost before = *self;
        match self.locate(name.as_str()) {
            Some(i) => {
                self.entries.set(i, (name, value));
                assert forall|k: Seq<char>| true implies #[trigger] self.position(k)
                    == before.position(k) by {
                    if before.position(k) is Some {
                        let p = before.position(k).unwrap();
                        assert(self.entries[p].0@ == k);
                    }
                    if self.position(k) is Some {
                        let p = self.position(k).unwrap();
                        assert(before.entries[p].0@ == k);
                    }
                }
            },
            None => {
                self.entries.push((name, value));
                assert forall|k: Seq<char>| k != name@ implies #[trigger] self.position(k)
                    == before.position(k) by {
                    if before.position(k) is Some {
                        let p = before.position(k).unwrap();
                        assert(self.entries[p].0@ == k);
                    }
                    if self.position(k) is Some {
                        let p = self.position(k).unwrap();
                        assert(before.entries[p].0@ == k);
                    }
                }
                assert(self.entries[self.entries.len() - 1].0@ == name@);
            },
        }
        assert(self@ =~= before@.insert(name@, value@));
    }

    /// The value entered under `name`, if there is one.
    pub fn get(&self, name: &str) -> (value: Option<&String>)
        requires
            self.wf(),
        ensures
            value is Some <==> self@.contains_key(name@),
            value matches Some(v) ==> v@ == self@[name@],
    {
        match self.locate(name) {
            Some(i) => Some(&self.entries[i].1),
            None => None,
        }
    }
}

/// Name and value of the header line `line`.
pub fn parse_header(line: &str) -> (entry: (String, String))
    ensures
        (entry.0@, entry.1@) == header_entry(line@),
{
    proof {
        reveal_strlit(":");
        assert(":"@ =~= seq![':']);
    }
    let chars = chars_of(line);
    let len: usize = chars.len();
    match find(chars.as_slice(), chars_of(":").as_slice(), 0) {
        Some(i) => {
            proof {
                lemma_first_match_some(line@, seq![':'], 0);
                assert(matches_at(line@, seq![':'], i as int));
                assert(i + 1 <= len);
            }
            let name = trim_bounds(chars.as_slice(), 0, i);
            let value = trim_bounds(chars.as_slice(), i + 1, len);
            (
                line.substring_char(name.0, name.1).to_owned(),
                line.substring_char(value.0, value.1).to_owned(),
            )
        },
        None => (line.to_owned(), String::new()),
    }
}

/// Converts the header lines into a map from names to values.
pub fn headers_to_map(headers: &Vec<String>) -> (map: HeaderMap)
    ensures
        map.wf(),
        map@ == header_map(texts(headers@)),
{
    let mut map = HeaderMap::new();
    let mut i: usize = 0;
    assert(texts(headers@).take(0) =~= Seq::<Seq<char>>::empty());
    while i < headers.len()
        invariant
            i <= headers.len(),
            map.wf(),
            map@ == header_map(texts(headers@).take(i as int)),
        decreases headers.len() - i,
    {
        let entry = parse_header(headers[i].as_str());
        proof {
            let seen = texts(headers@).take(i as int + 1);
            assert(seen.drop_last() =~= texts(headers@).take(i as int));
            assert(seen.last() == headers[i as int]@);
        }
        map.insert(entry.0, entry.1);
        i += 1;
    }
    assert(texts(headers@).take(headers.len() as int) =~= texts(headers@));
    map
}

} // verus!
