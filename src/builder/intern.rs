//! Accumulates the strings section while a document is built, sharing one
//! copy of each short string.
use vstd::prelude::*;
use vstd::string::StringSliceAdditionalSpecFns;

use crate::codec::StringRange;
use vstd::utf8::{encode_utf8, is_continuation_byte, valid_utf8};

verus! {

/// The table from interned strings to where they landed in the strings
/// section. It holds a `hashbrown` map.
#[verifier::external_body]
pub struct InternTable {
    map: hashbrown::HashMap<String, StringRange>,
}

/// What an intern table holds: each interned string and its range.
pub uninterp spec fn interned(t: InternTable) -> Map<Seq<char>, StringRange>;

impl InternTable {
    /// Relies on `hashbrown::HashMap::new`: the new map is empty.
    #[verifier::external_body]
    pub fn new() -> (t: InternTable)
        ensures
            interned(t).dom() == Set::<Seq<char>>::empty(),
    {
        InternTable { map: hashbrown::HashMap::new() }
    }

    /// Relies on `hashbrown::HashMap::get`: the range stored for `s`, if any.
    #[verifier::external_body]
    pub fn get(&self, s: &str) -> (r: Option<StringRange>)
        ensures
            interned(*self).contains_key(s@) ==> r == Some(interned(*self)[s@]),
            !interned(*self).contains_key(s@) ==> r is None,
    {
        self.map.get(s).copied()
    }

    /// Relies on `hashbrown::HashMap::insert`: afterwards `s` maps to `r` and
    /// every other entry is unchanged.
    #[verifier::external_body]
    pub fn insert(&mut self, s: &str, r: StringRange)
        ensures
            interned(*final(self)) == interned(*old(self)).insert(s@, r),
    {
        self.map.insert(s.to_owned(), r);
    }

    /// Relies on `hashbrown::HashMap::clear`: the map is empty afterwards.
    #[verifier::external_body]
    pub fn clear(&mut self)
        ensures
            interned(*final(self)).dom() == Set::<Seq<char>>::empty(),
    {
        self.map.clear();
    }
}

/// Abstract state of the strings section under construction.
pub struct InternModel {
    /// The bytes of the strings section so far.
    pub buffer: Seq<u8>,
    /// The interned strings and their ranges.
    pub table: Map<Seq<char>, StringRange>,
    /// Strings of at most this many bytes are interned.
    pub limit: nat,
}

pub open spec fn range_of(start: int, len: int) -> StringRange {
    StringRange { start: start as u32, len: len as u32 }
}

/// Appending `s` fits in a section of at most `u32::MAX` bytes.
pub open spec fn fits(m: InternModel, s: Seq<char>) -> bool {
    m.buffer.len() + vstd::utf8::encode_utf8(s).len() <= u32::MAX
}

/// Append `s` unconditionally.
pub open spec fn append_step(m: InternModel, s: Seq<char>) -> (InternModel, StringRange) {
    let bytes = vstd::utf8::encode_utf8(s);
    (
        InternModel { buffer: m.buffer + bytes, ..m },
        range_of(m.buffer.len() as int, bytes.len() as int),
    )
}

/// Intern `s`: reuse its range when it was seen, else append it and record
/// where it landed.
pub open spec fn intern_step(m: InternModel, s: Seq<char>) -> (InternModel, StringRange) {
    if s.len() == 0 {
        (m, range_of(0, 0))
    } else if m.table.contains_key(s) {
        (m, m.table[s])
    } else {
        let (m1, r) = append_step(m, s);
        (InternModel { table: m.table.insert(s, r), ..m1 }, r)
    }
}

/// Add `s` as a string value: the empty string is the empty range; strings
/// of at most `limit` bytes are interned; longer ones are appended.
pub open spec fn add_step(m: InternModel, s: Seq<char>) -> (InternModel, StringRange) {
    if s.len() == 0 {
        (m, range_of(0, 0))
    } else if vstd::utf8::encode_utf8(s).len() <= m.limit {
        intern_step(m, s)
    } else {
        append_step(m, s)
    }
}

/// Byte `i` of a strings section starts a character or ends the section.
pub open spec fn boundary(strings: Seq<u8>, i: int) -> bool {
    i == strings.len() || !is_continuation_byte(strings[i])
}

/// A string range lies in the section and on character boundaries.
pub open spec fn string_ok(strings: Seq<u8>, r: StringRange) -> bool {
    &&& r.start + r.len <= strings.len()
    &&& boundary(strings, r.start as int)
    &&& boundary(strings, r.start + r.len)
}

/// The strings section is valid UTF-8 and every interned range lies in it
/// on character boundaries.
pub open spec fn strings_inv(m: InternModel) -> bool {
    &&& valid_utf8(m.buffer)
    &&& forall|s: Seq<char>| #[trigger] m.table.contains_key(s) ==> string_ok(m.buffer, m.table[s])
        && holds(m.buffer, m.table[s], s)
}

/// The range `r` of `buffer` holds the encoding of `s`; the empty string is
/// the empty range.
pub open spec fn holds(buffer: Seq<u8>, r: StringRange, s: Seq<char>) -> bool {
    if s.len() == 0 {
        r.len == 0
    } else {
        r.start + r.len <= buffer.len() && buffer.subrange(r.start as int, r.start + r.len)
            == encode_utf8(s)
    }
}

/// Growing a buffer at its end keeps what its ranges hold.
pub proof fn lemma_holds_prefix(b1: Seq<u8>, b2: Seq<u8>, r: StringRange, s: Seq<char>)
    requires
        holds(b1, r, s),
        b1.is_prefix_of(b2),
    ensures
        holds(b2, r, s),
{
    if s.len() != 0 {
        assert(b2.subrange(r.start as int, r.start + r.len) =~= b1.subrange(
            r.start as int,
            r.start + r.len,
        ));
    }
}

/// The first byte of non-empty valid UTF-8 starts a character.
pub proof fn lemma_valid_utf8_first(x: Seq<u8>)
    requires
        valid_utf8(x),
        x.len() > 0,
    ensures
        !is_continuation_byte(x[0]),
{
    vstd::utf8::is_char_boundary_start_end_of_seq(x);
    vstd::utf8::is_char_boundary_iff_not_is_continuation_byte(x, 0);
}

/// Appending valid UTF-8 keeps a range well placed.
pub proof fn lemma_string_ok_append(buf: Seq<u8>, x: Seq<u8>, r: StringRange)
    requires
        valid_utf8(x),
        string_ok(buf, r),
    ensures
        string_ok(buf + x, r),
{
    let b2 = buf + x;
    if x.len() > 0 {
        lemma_valid_utf8_first(x);
        assert(b2[buf.len() as int] == x[0]);
    }
    if r.start < buf.len() {
        assert(b2[r.start as int] == buf[r.start as int]);
    }
    if r.start + r.len < buf.len() {
        assert(b2[r.start + r.len] == buf[r.start + r.len]);
    }
}

/// Appending the encoding of a non-empty string keeps the invariant, and
/// the appended range is well placed.
pub proof fn lemma_append_step_inv(m: InternModel, s: Seq<char>)
    requires
        strings_inv(m),
        fits(m, s),
    ensures
        strings_inv(append_step(m, s).0),
        string_ok(append_step(m, s).0.buffer, append_step(m, s).1),
        forall|r: StringRange| string_ok(m.buffer, r) ==> string_ok(append_step(m, s).0.buffer, r),
{
    let x = encode_utf8(s);
    vstd::utf8::encode_utf8_valid_utf8(s);
    vstd::utf8::valid_utf8_concat(m.buffer, x);
    let b2 = m.buffer + x;
    assert forall|r: StringRange| string_ok(m.buffer, r) implies string_ok(b2, r) by {
        lemma_string_ok_append(m.buffer, x, r);
    }
    if x.len() > 0 {
        lemma_valid_utf8_first(x);
        assert(b2[m.buffer.len() as int] == x[0]);
    }
    assert(m.buffer.is_prefix_of(b2)) by {
        assert(b2.subrange(0, m.buffer.len() as int) =~= m.buffer);
    }
    assert forall|t: Seq<char>| #[trigger] m.table.contains_key(t) implies string_ok(
        b2,
        m.table[t],
    ) && holds(b2, m.table[t], t) by {
        lemma_holds_prefix(m.buffer, b2, m.table[t], t);
    }
}

/// Interning keeps the invariant; the range it returns is well placed, and
/// so is every range that was.
pub proof fn lemma_intern_step_inv(m: InternModel, s: Seq<char>)
    requires
        strings_inv(m),
        s.len() == 0 || m.table.contains_key(s) || fits(m, s),
    ensures
        strings_inv(intern_step(m, s).0),
        string_ok(intern_step(m, s).0.buffer, intern_step(m, s).1),
        forall|r: StringRange| string_ok(m.buffer, r) ==> string_ok(intern_step(m, s).0.buffer, r),
        m.buffer.is_prefix_of(intern_step(m, s).0.buffer),
        holds(intern_step(m, s).0.buffer, intern_step(m, s).1, s),
{
    if s.len() == 0 {
        assert(m.buffer.is_prefix_of(m.buffer));
        if m.buffer.len() == 0 {
        } else {
            lemma_valid_utf8_first(m.buffer);
        }
    } else if m.table.contains_key(s) {
        assert(m.buffer.is_prefix_of(m.buffer));
    } else {
        lemma_append_step_inv(m, s);
        let (m1, r) = append_step(m, s);
        let m2 = intern_step(m, s).0;
        assert forall|t: Seq<char>| #[trigger] m2.table.contains_key(t) implies string_ok(
            m2.buffer,
            m2.table[t],
        ) && holds(m2.buffer, m2.table[t], t) by {
            assert(m.buffer.is_prefix_of(m1.buffer)) by {
                assert(m1.buffer.subrange(0, m.buffer.len() as int) =~= m.buffer);
            }
            if t != s {
                assert(string_ok(m.buffer, m.table[t]));
                lemma_holds_prefix(m.buffer, m1.buffer, m.table[t], t);
            } else {
                assert(m1.buffer.subrange(r.start as int, r.start + r.len) =~= encode_utf8(s));
            }
        }
        assert(m.buffer.is_prefix_of(m1.buffer)) by {
            assert(m1.buffer.subrange(0, m.buffer.len() as int) =~= m.buffer);
        }
        assert(m1.buffer.subrange(r.start as int, r.start + r.len) =~= encode_utf8(s));
    }
}

/// Adding a string keeps the invariant; the range it returns is well
/// placed, and so is every range that was.
pub proof fn lemma_add_step_inv(m: InternModel, s: Seq<char>)
    requires
        strings_inv(m),
        s.len() == 0 || (encode_utf8(s).len() <= m.limit && m.table.contains_key(s)) || fits(m, s),
    ensures
        strings_inv(add_step(m, s).0),
        string_ok(add_step(m, s).0.buffer, add_step(m, s).1),
        forall|r: StringRange| string_ok(m.buffer, r) ==> string_ok(add_step(m, s).0.buffer, r),
        m.buffer.is_prefix_of(add_step(m, s).0.buffer),
        holds(add_step(m, s).0.buffer, add_step(m, s).1, s),
{
    if s.len() == 0 {
        lemma_intern_step_inv(m, s);
    } else if encode_utf8(s).len() <= m.limit {
        lemma_intern_step_inv(m, s);
    } else {
        lemma_append_step_inv(m, s);
        assert(append_step(m, s).0.buffer.subrange(0, m.buffer.len() as int) =~= m.buffer);
        let (m1, r) = append_step(m, s);
        assert(m1.buffer.subrange(r.start as int, r.start + r.len) =~= encode_utf8(s));
    }
}

/// The strings section under construction.
pub struct Strings {
    buffer: Vec<u8>,
    table: InternTable,
    limit: usize,
}

/// Adding `s` may need to append it, and the result would not fit.
pub open spec fn may_overflow(m: InternModel, s: Seq<char>) -> bool {
    s.len() != 0 && !fits(m, s)
}

impl Strings {
    pub closed spec fn model(&self) -> InternModel {
        InternModel { buffer: self.buffer@, table: interned(self.table), limit: self.limit as nat }
    }

    /// An empty section that interns strings of at most `limit` bytes.
    pub fn new(limit: usize) -> (r: Strings)
        ensures
            r.model() == (InternModel {
                buffer: Seq::empty(),
                table: Map::empty(),
                limit: limit as nat,
            }),
    {
        let r = Strings { buffer: Vec::new(), table: InternTable::new(), limit };
        assert(r.model().table =~= Map::empty());
        assert(r.model().buffer =~= Seq::empty());
        r
    }

    pub fn limit(&self) -> (r: usize)
        ensures
            r == self.model().limit,
    {
        self.limit
    }

    pub fn set_limit(&mut self, limit: usize)
        ensures
            final(self).model() == (InternModel { limit: limit as nat, ..old(self).model() }),
    {
        self.limit = limit;
    }

    /// Empty the section, keeping the limit.
    pub fn clear(&mut self)
        ensures
            final(self).model() == (InternModel {
                buffer: Seq::empty(),
                table: Map::empty(),
                limit: old(self).model().limit,
            }),
    {
        self.buffer.clear();
        self.table.clear();
        assert(self.buffer@ =~= Seq::<u8>::empty());
        assert(self.model().table =~= Map::empty());
    }

    pub fn as_bytes(&self) -> (r: &[u8])
        ensures
            r@ == self.model().buffer,
    {
        self.buffer.as_slice()
    }

    pub fn len(&self) -> (r: usize)
        ensures
            r == self.model().buffer.len(),
    {
        self.buffer.len()
    }

    fn append(&mut self, s: &str) -> (r: StringRange)
        requires
            fits(old(self).model(), s@),
        ensures
            (final(self).model(), r) == append_step(old(self).model(), s@),
    {
        let bytes = s.as_bytes();
        let start = self.buffer.len() as u32;
        assert(bytes@.len() == vstd::utf8::encode_utf8(s@).len());
        let len = bytes.len() as u32;
        let mut i: usize = 0;
        while i < bytes.len()
            invariant
                i <= bytes@.len(),
                bytes@ == s.spec_bytes(),
                self.buffer@ == old(self).buffer@ + bytes@.subrange(0, i as int),
                self.table == old(self).table,
                self.limit == old(self).limit,
            decreases bytes@.len() - i,
        {
            self.buffer.push(bytes[i]);
            assert(bytes@.subrange(0, i + 1) =~= bytes@.subrange(0, i as int).push(bytes@[i as int]));
            i = i + 1;
        }
        assert(bytes@.subrange(0, bytes@.len() as int) =~= bytes@);
        StringRange { start, len }
    }

    /// Intern `s`; `None` when it would have to be appended and the section
    /// would outgrow `u32::MAX` bytes (then nothing changes).
    pub fn add_string_intern(&mut self, s: &str) -> (r: Option<StringRange>)
        ensures
            old(self).model().buffer.len() <= u32::MAX ==> final(self).model().buffer.len()
                <= u32::MAX,
            r is Some ==> s@.len() == 0 || old(self).model().table.contains_key(s@) || fits(
                old(self).model(),
                s@,
            ),
            match r {
                Some(range) => (final(self).model(), range) == intern_step(old(self).model(), s@),
                None => s@.len() != 0 && !old(self).model().table.contains_key(s@) && !fits(
                    old(self).model(),
                    s@,
                ) && final(self).model() == old(self).model(),
            },
    {
        if s.is_empty() {
            return Some(StringRange::empty());
        }
        let n = s.as_bytes().len();
        match self.table.get(s) {
            Some(range) => Some(range),
            None => {
                if n > u32::MAX as usize || self.buffer.len() > u32::MAX as usize || (
                self.buffer.len() as u64) + (n as u64) > u32::MAX as u64 {
                    return None;
                }
                let range = self.append(s);
                self.table.insert(s, range);
                Some(range)
            },
        }
    }

    /// Add a string value: interned when it is at most `limit` bytes long,
    /// appended otherwise. `None` when the section would outgrow `u32::MAX`
    /// bytes (then nothing changes).
    pub fn add_string(&mut self, s: &str) -> (r: Option<StringRange>)
        ensures
            old(self).model().buffer.len() <= u32::MAX ==> final(self).model().buffer.len()
                <= u32::MAX,
            r is Some ==> s@.len() == 0 || (encode_utf8(s@).len() <= old(self).model().limit
                && old(self).model().table.contains_key(s@)) || fits(old(self).model(), s@),
            match r {
                Some(range) => (final(self).model(), range) == add_step(old(self).model(), s@),
                None => may_overflow(old(self).model(), s@) && final(self).model() == old(
                    self,
                ).model(),
            },
    {
        if s.is_empty() {
            return Some(StringRange::empty());
        }
        let n = s.as_bytes().len();
        if n <= self.limit {
            return self.add_string_intern(s);
        }
        if n > u32::MAX as usize || self.buffer.len() > u32::MAX as usize || (
        self.buffer.len() as u64) + (n as u64) > u32::MAX as u64 {
            return None;
        }
        Some(self.append(s))
    }
}

} // verus!
