use vstd::prelude::*;

use crate::framing::byte_strings;

verus! {

/// `c` with an ASCII upper-case letter turned to lower case.
pub open spec fn lower_char(c: char) -> char {
    if 'A' <= c && c <= 'Z' {
        ((c as u32) + 32) as char
    } else {
        c
    }
}

/// `s` with every ASCII upper-case letter turned to lower case.
pub open spec fn ascii_lower(s: Seq<char>) -> Seq<char> {
    s.map_values(|c: char| lower_char(c))
}

/// Relies on str::to_ascii_lowercase: each ASCII upper-case letter becomes its lower-case
/// letter and every other character stays as it is.
#[verifier::external_body]
pub(crate) fn ascii_lowercase(s: &str) -> (r: String)
    ensures
        r@ == ascii_lower(s@),
{
    s.to_ascii_lowercase()
}

/// The texts that a vector of strings holds.
pub open spec fn texts(v: Seq<String>) -> Seq<Seq<char>> {
    v.map_values(|x: String| x@)
}

/// The values of the entries named `name`, in order.
pub open spec fn values_named(s: Seq<(Seq<char>, Seq<u8>)>, name: Seq<char>) -> Seq<Seq<u8>>
    decreases s.len(),
{
    if s.len() == 0 {
        seq![]
    } else {
        let p = values_named(s.drop_last(), name);
        if s.last().0 == name {
            p.push(s.last().1)
        } else {
            p
        }
    }
}

/// The distinct names of the entries, in order of first appearance.
pub open spec fn distinct_names(s: Seq<(Seq<char>, Seq<u8>)>) -> Seq<Seq<char>>
    decreases s.len(),
{
    if s.len() == 0 {
        seq![]
    } else {
        let p = distinct_names(s.drop_last());
        if p.contains(s.last().0) {
            p
        } else {
            p.push(s.last().0)
        }
    }
}

/// The request headers as a processor sees them: names in lower case, looked up without
/// regard to case, duplicates kept in the order they came, values as raw bytes.
pub struct HeaderView {
    entries: Vec<(String, Vec<u8>)>,
}

impl View for HeaderView {
    type V = Seq<(Seq<char>, Seq<u8>)>;

    closed spec fn view(&self) -> Seq<(Seq<char>, Seq<u8>)> {
        self.entries@.map_values(|e: (String, Vec<u8>)| (e.0@, e.1@))
    }
}

fn copy_bytes(v: &Vec<u8>) -> (r: Vec<u8>)
    ensures
        r@ == v@,
{
    let mut r: Vec<u8> = Vec::new();
    let mut i: usize = 0;
    while i < v.len()
        invariant
            i <= v@.len(),
            r@ == v@.subrange(0, i as int),
        decreases v@.len() - i,
    {
        r.push(v[i]);
        assert(r@ =~= v@.subrange(0, i + 1));
        i = i + 1;
    }
    assert(v@.subrange(0, v@.len() as int) =~= v@);
    r
}

/// Whether `v` holds a string with the text of `s`.
fn contains_text(v: &Vec<String>, s: &String) -> (r: bool)
    ensures
        r == texts(v@).contains(s@),
{
    let mut i: usize = 0;
    while i < v.len()
        invariant
            i <= v@.len(),
            forall|k: int| 0 <= k < i ==> v@[k]@ != s@,
        decreases v@.len() - i,
    {
        if v[i] == *s {
            assert(texts(v@)[i as int] == s@);
            return true;
        }
        i = i + 1;
    }
    assert forall|k: int| 0 <= k < texts(v@).len() implies texts(v@)[k] != s@ by {
        assert(texts(v@)[k] == v@[k]@);
    }
    false
}

impl HeaderView {
    /// The view of `headers`, each given as (name, value).
    pub fn new(headers: &Vec<(String, Vec<u8>)>) -> (r: HeaderView)
        ensures
            r@ == headers@.map_values(|e: (String, Vec<u8>)| (ascii_lower(e.0@), e.1@)),
    {
        let mut entries: Vec<(String, Vec<u8>)> = Vec::new();
        let mut i: usize = 0;
        while i < headers.len()
            invariant
                i <= headers@.len(),
                entries@.len() == i,
                entries@.map_values(|e: (String, Vec<u8>)| (e.0@, e.1@)) == headers@.subrange(
                    0,
                    i as int,
                ).map_values(|e: (String, Vec<u8>)| (ascii_lower(e.0@), e.1@)),
            decreases headers@.len() - i,
        {
            let name = ascii_lowercase(headers[i].0.as_str());
            let value = copy_bytes(&headers[i].1);
            let ghost prev = entries@;
            entries.push((name, value));
            assert(entries@[i as int].0@ == ascii_lower(headers@[i as int].0@));
            assert(entries@[i as int].1@ == headers@[i as int].1@);
            assert forall|k: int| 0 <= k < i + 1 implies (entries@[k].0@, entries@[k].1@) == (
                ascii_lower(headers@[k].0@),
                headers@[k].1@,
            ) by {
                if k < i {
                    assert(entries@[k] == prev[k]);
                    assert(prev.map_values(|e: (String, Vec<u8>)| (e.0@, e.1@))[k]
                        == headers@.subrange(0, i as int).map_values(
                        |e: (String, Vec<u8>)| (ascii_lower(e.0@), e.1@),
                    )[k]);
                }
            }
            assert(entries@.map_values(|e: (String, Vec<u8>)| (e.0@, e.1@)) =~= headers@.subrange(
                0,
                i + 1,
            ).map_values(|e: (String, Vec<u8>)| (ascii_lower(e.0@), e.1@)));
            i = i + 1;
        }
        assert(headers@.subrange(0, headers@.len() as int) =~= headers@);
        HeaderView { entries }
    }

    /// The number of entries, duplicates counted.
    pub fn len(&self) -> (r: usize)
        ensures
            r == self@.len(),
    {
        self.entries.len()
    }

    /// Whether an entry is named `key`, in any case.
    pub fn contains(&self, key: &str) -> (r: bool)
        ensures
            r == exists|k: int| 0 <= k < self@.len() && (#[trigger] self@[k]).0 == ascii_lower(key@),
    {
        match self.get(key) {
            Some(_) => true,
            None => false,
        }
    }

    /// The value of the first entry named `key`, in any case.
    pub fn get(&self, key: &str) -> (r: Option<Vec<u8>>)
        ensures
            r is None <==> forall|k: int|
                0 <= k < self@.len() ==> (#[trigger] self@[k]).0 != ascii_lower(key@),
            r is Some ==> exists|k: int|
                0 <= k < self@.len() && (#[trigger] self@[k]).0 == ascii_lower(key@) && r->0@
                    == self@[k].1 && forall|j: int| 0 <= j < k ==> self@[j].0 != ascii_lower(key@),
    {
        let name = ascii_lowercase(key);
        let mut i: usize = 0;
        while i < self.entries.len()
            invariant
                i <= self@.len(),
                name@ == ascii_lower(key@),
                forall|j: int| 0 <= j < i ==> self@[j].0 != name@,
            decreases self@.len() - i,
        {
            if self.entries[i].0 == name {
                let v = copy_bytes(&self.entries[i].1);
                assert(self@[i as int].0 == name@);
                return Some(v);
            }
            i = i + 1;
        }
        None
    }

    /// The values of every entry named `key`, in any case, in order.
    pub fn get_all(&self, key: &str) -> (r: Vec<Vec<u8>>)
        ensures
            byte_strings(r@) == values_named(self@, ascii_lower(key@)),
    {
        let name = ascii_lowercase(key);
        let mut r: Vec<Vec<u8>> = Vec::new();
        let mut i: usize = 0;
        while i < self.entries.len()
            invariant
                i <= self@.len(),
                name@ == ascii_lower(key@),
                byte_strings(r@) == values_named(self@.subrange(0, i as int), name@),
            decreases self@.len() - i,
        {
            assert(self@.subrange(0, i + 1).drop_last() =~= self@.subrange(0, i as int));
            if self.entries[i].0 == name {
                let v = copy_bytes(&self.entries[i].1);
                r.push(v);
                assert(byte_strings(r@) =~= values_named(self@.subrange(0, i as int), name@).push(
                    self@[i as int].1,
                ));
            }
            i = i + 1;
        }
        assert(self@.subrange(0, self@.len() as int) =~= self@);
        r
    }

    /// The distinct names, in order of first appearance.
    pub fn names(&self) -> (r: Vec<String>)
        ensures
            texts(r@) == distinct_names(self@),
    {
        let mut r: Vec<String> = Vec::new();
        let mut i: usize = 0;
        while i < self.entries.len()
            invariant
                i <= self@.len(),
                texts(r@) == distinct_names(self@.subrange(0, i as int)),
            decreases self@.len() - i,
        {
            assert(self@.subrange(0, i + 1).drop_last() =~= self@.subrange(0, i as int));
            if !contains_text(&r, &self.entries[i].0) {
                let n = self.entries[i].0.clone();
                let ghost before = texts(r@);
                r.push(n);
                assert(texts(r@) =~= before.push(self@[i as int].0));
            }
            i = i + 1;
        }
        assert(self@.subrange(0, self@.len() as int) =~= self@);
        r
    }

    /// Every (name, value) entry, duplicates kept, in order.
    pub fn items(&self) -> (r: Vec<(String, Vec<u8>)>)
        ensures
            r@.map_values(|e: (String, Vec<u8>)| (e.0@, e.1@)) == self@,
    {
        let mut r: Vec<(String, Vec<u8>)> = Vec::new();
        let mut i: usize = 0;
        while i < self.entries.len()
            invariant
                i <= self@.len(),
                r@.len() == i,
                r@.map_values(|e: (String, Vec<u8>)| (e.0@, e.1@)) == self@.subrange(0, i as int),
            decreases self@.len() - i,
        {
            let n = self.entries[i].0.clone();
            let v = copy_bytes(&self.entries[i].1);
            let ghost prev = r@;
            r.push((n, v));
            assert(r@[i as int].0@ == self@[i as int].0);
            assert(r@[i as int].1@ == self@[i as int].1);
            assert(r@.subrange(0, i as int) =~= prev);
            assert(r@.map_values(|e: (String, Vec<u8>)| (e.0@, e.1@)) =~= self@.subrange(
                0,
                i + 1,
            ));
            i = i + 1;
        }
        assert(self@.subrange(0, self@.len() as int) =~= self@);
        r
    }
}

} // verus!
