//! The `key=value key="quoted value"` field lists that follow a tag in the
//! `litho -o gui` protocol, and the small string map that holds them.
use vstd::prelude::*;
use vstd::utf8::encode_scalar;
use crate::text::{
    chars_eq, chars_of, find_char, find_char_from, is_ascii_seq, lemma_find_char,
    lemma_find_char_unique, push_char, string_of_range,
};

verus! {

// ---------------------------------------------------------------------------
// A string map whose view is `Map<Seq<char>, Seq<char>>`
// ---------------------------------------------------------------------------
/// Field values by key; a later value for a key replaces an earlier one.
pub struct FieldMap {
    entries: Vec<(String, String)>,
    contents: Ghost<Map<Seq<char>, Seq<char>>>,
}

/// `entries` has distinct keys and lists exactly the pairs of `contents`.
spec fn entries_hold(entries: Seq<(String, String)>, contents: Map<Seq<char>, Seq<char>>) -> bool {
    &&& forall|i: int, j: int|
        0 <= i < j < entries.len() ==> (#[trigger] entries[i]).0@ != (#[trigger] entries[j]).0@
    &&& forall|i: int|
        0 <= i < entries.len() ==> contents.contains_key((#[trigger] entries[i]).0@)
            && contents[entries[i].0@] == entries[i].1@
    &&& forall|k: Seq<char>|
        #[trigger] contents.contains_key(k) ==> exists|i: int|
            0 <= i < entries.len() && (#[trigger] entries[i]).0@ == k
}

impl FieldMap {
    #[verifier::type_invariant]
    spec fn inv(&self) -> bool {
        entries_hold(self.entries@, self.contents@)
    }

    /// The fields, as a map from key to value.
    pub closed spec fn view(&self) -> Map<Seq<char>, Seq<char>> {
        self.contents@
    }

    /// An empty map.
    pub fn new() -> (r: FieldMap)
        ensures
            r@ == Map::<Seq<char>, Seq<char>>::empty(),
    {
        FieldMap { entries: Vec::new(), contents: Ghost(Map::empty()) }
    }

    /// Position of `key` among the entries, if present.
    fn position(&self, key: &Vec<char>) -> (r: Option<usize>)
        ensures
            r matches Some(i) ==> i < self.entries@.len() && self.entries@[i as int].0@ == key@,
            r is None ==> forall|i: int|
                0 <= i < self.entries@.len() ==> (#[trigger] self.entries@[i]).0@ != key@,
    {
        let mut i: usize = 0;
        while i < self.entries.len()
            invariant
                i <= self.entries@.len(),
                forall|k: int| 0 <= k < i ==> (#[trigger] self.entries@[k]).0@ != key@,
            decreases self.entries@.len() - i,
        {
            let k = chars_of(self.entries[i].0.as_str());
            if chars_eq(&k, key) {
                return Some(i);
            }
            i = i + 1;
        }
        None
    }

    /// Sets `key` to `value`, replacing any earlier value.
    pub fn insert(&mut self, key: String, value: String)
        ensures
            final(self)@ == old(self)@.insert(key@, value@),
    {
        proof {
            use_type_invariant(&*self);
        }
        let kv = chars_of(key.as_str());
        let ghost new_contents = self.contents@.insert(key@, value@);
        let pos = self.position(&kv);
        let mut taken = FieldMap::new();
        std::mem::swap(self, &mut taken);
        proof {
            use_type_invariant(&taken);
        }
        let FieldMap { entries: mut entries, contents: _ } = taken;
        let ghost old_entries = entries@;
        match pos {
            Some(i) => {
                entries.set(i, (key, value));
                proof {
                    assert forall|k: Seq<char>| #[trigger]
                        new_contents.contains_key(k) implies exists|j: int|
                        0 <= j < entries@.len() && (#[trigger] entries@[j]).0@ == k by {
                        if k != key@ {
                            let j = choose|j: int|
                                0 <= j < old_entries.len() && (#[trigger] old_entries[j]).0@
                                    == k;
                            assert(entries@[j] == old_entries[j]);
                        } else {
                            assert(entries@[i as int].0@ == k);
                        }
                    }
                }
            },
            None => {
                entries.push((key, value));
                proof {
                    assert forall|k: Seq<char>| #[trigger]
                        new_contents.contains_key(k) implies exists|j: int|
                        0 <= j < entries@.len() && (#[trigger] entries@[j]).0@ == k by {
                        if k != key@ {
                            let j = choose|j: int|
                                0 <= j < old_entries.len() && (#[trigger] old_entries[j]).0@
                                    == k;
                            assert(entries@[j] == old_entries[j]);
                        } else {
                            assert(entries@[old_entries.len() as int].0@ == k);
                        }
                    }
                }
            },
        }
        proof {
            assert forall|a: int, b: int|
                0 <= a < b < entries@.len() implies (#[trigger] entries@[a]).0@ != (
                #[trigger] entries@[b]).0@ by {
                if pos is None && b == old_entries.len() {
                    assert(entries@[a] == old_entries[a]);
                } else if pos is Some && (a == pos.unwrap() || b == pos.unwrap()) {
                    let p = pos.unwrap();
                    if a == p {
                        assert(entries@[b] == old_entries[b]);
                        assert(old_entries[p as int].0@ == key@);
                    } else {
                        assert(entries@[a] == old_entries[a]);
                        assert(old_entries[p as int].0@ == key@);
                    }
                } else {
                    assert(entries@[a] == old_entries[a]);
                    assert(entries@[b] == old_entries[b]);
                }
            }
            assert forall|k: Seq<char>| #[trigger]
                new_contents.contains_key(k) implies exists|j: int|
                0 <= j < entries@.len() && (#[trigger] entries@[j]).0@ == k by {
                if k != key@ {
                    let j = choose|j: int|
                        0 <= j < old_entries.len() && (#[trigger] old_entries[j]).0@ == k;
                    if pos is Some && j == pos.unwrap() {
                        assert(false);
                    }
                    assert(entries@[j] == old_entries[j]);
                } else if pos is Some {
                    assert(entries@[pos.unwrap() as int].0@ == k);
                } else {
                    assert(entries@[old_entries.len() as int].0@ == k);
                }
            }
            assert forall|a: int|
                0 <= a < entries@.len() implies new_contents.contains_key(
                (#[trigger] entries@[a]).0@,
            ) && new_contents[entries@[a].0@] == entries@[a].1@ by {
                if entries@[a].0@ != key@ {
                    assert(entries@[a] == old_entries[a]);
                }
            }
        }
        assert(entries_hold(entries@, new_contents));
        *self = FieldMap { entries, contents: Ghost(new_contents) };
    }

    /// The value of `key`, if any.
    pub fn get(&self, key: &str) -> (r: Option<String>)
        ensures
            r matches Some(v) ==> self@.contains_key(key@) && v@ == self@[key@],
            r is None ==> !self@.contains_key(key@),
    {
        proof {
            use_type_invariant(self);
        }
        let kv = chars_of(key);
        match self.position(&kv) {
            Some(i) => Some(self.entries[i].1.clone()),
            None => None,
        }
    }

    /// Number of distinct keys.
    pub fn len(&self) -> (r: usize)
        ensures
            r == self@.dom().len(),
    {
        proof {
            use_type_invariant(self);
            self.lemma_len();
        }
        self.entries.len()
    }

    proof fn lemma_len(&self)
        requires
            entries_hold(self.entries@, self.contents@),
        ensures
            self@.dom().len() == self.entries@.len(),
            self@.dom().finite(),
    {
        let keys = self.entries@.map_values(|e: (String, String)| e.0@);
        assert(keys.no_duplicates()) by {
            assert forall|i: int, j: int|
                0 <= i < keys.len() && 0 <= j < keys.len() && i != j implies keys[i]
                != keys[j] by {
                if i < j {
                    assert(self.entries@[i].0@ != self.entries@[j].0@);
                } else {
                    assert(self.entries@[j].0@ != self.entries@[i].0@);
                }
            }
        }
        assert(keys.to_set() =~= self@.dom()) by {
            assert forall|k: Seq<char>| keys.to_set().contains(k) <==> self@.dom().contains(
                k,
            ) by {
                if self@.dom().contains(k) {
                    let j = choose|j: int|
                        0 <= j < self.entries@.len() && (#[trigger] self.entries@[j]).0@ == k;
                    assert(keys[j] == k);
                }
                if keys.to_set().contains(k) {
                    let j = choose|j: int| 0 <= j < keys.len() && keys[j] == k;
                    assert(self.entries@[j].0@ == k);
                }
            }
        }
        keys.unique_seq_to_set();
    }
}

// ---------------------------------------------------------------------------
// The field syntax
// ---------------------------------------------------------------------------
/// What the value text receives for one character of a quoted value: each
/// byte of the character's UTF-8 encoding becomes the character with that
/// code (the bytes are copied one by one).
pub open spec fn byte_chars(c: char) -> Seq<char> {
    encode_scalar(c as u32).map_values(|b: u8| b as char)
}

/// A quoted value: the value read from `s` (which follows the opening quote)
/// and how many characters of `s` it takes, closing quote included. A
/// backslash takes the next character literally; the value ends at an
/// unescaped `"` or at the end of `s`.
pub open spec fn quoted_value(s: Seq<char>) -> (Seq<char>, nat)
    decreases s.len(),
{
    if s.len() == 0 {
        (Seq::empty(), 0)
    } else if s[0] == '\\' && s.len() >= 2 {
        let rest = quoted_value(s.skip(2));
        (byte_chars(s[1]) + rest.0, rest.1 + 2)
    } else if s[0] == '"' {
        (Seq::empty(), 1)
    } else {
        let rest = quoted_value(s.drop_first());
        (byte_chars(s[0]) + rest.0, rest.1 + 1)
    }
}

/// A quoted value never takes more than there is.
pub proof fn lemma_quoted_value_len(s: Seq<char>)
    ensures
        quoted_value(s).1 <= s.len(),
    decreases s.len(),
{
    if s.len() == 0 {
    } else if s[0] == '\\' && s.len() >= 2 {
        lemma_quoted_value_len(s.skip(2));
    } else if s[0] == '"' {
    } else {
        lemma_quoted_value_len(s.drop_first());
    }
}

/// The fields of `s` added, in order, to `acc`. Spaces before a key are
/// skipped; a key runs up to the next `=` (reading stops when there is none);
/// a value is quoted (see `quoted_value`) or runs up to the next space.
pub open spec fn fields_from(s: Seq<char>, acc: Map<Seq<char>, Seq<char>>) -> Map<
    Seq<char>,
    Seq<char>,
>
    decreases s.len(),
{
    if s.len() == 0 {
        acc
    } else if s[0] == ' ' {
        fields_from(s.drop_first(), acc)
    } else {
        let k = find_char(s, '=');
        if k >= s.len() {
            acc
        } else {
            proof {
                lemma_find_char(s, '=');
            }
            let key = s.take(k);
            let after = s.skip(k + 1);
            if after.len() > 0 && after[0] == '"' {
                proof {
                    lemma_quoted_value_len(after.drop_first());
                }
                let q = quoted_value(after.drop_first());
                fields_from(after.skip(q.1 as int + 1), acc.insert(key, q.0))
            } else {
                proof {
                    lemma_find_char(after, ' ');
                }
                let e = find_char(after, ' ');
                fields_from(after.skip(e), acc.insert(key, after.take(e)))
            }
        }
    }
}

/// The fields of `s`.
pub open spec fn fields_of(s: Seq<char>) -> Map<Seq<char>, Seq<char>> {
    fields_from(s, Map::empty())
}

// ---------------------------------------------------------------------------
// Writing fields, and reading them back
// ---------------------------------------------------------------------------
/// `v` as it is written inside quotes: a backslash before each backslash and
/// each double quote.
pub open spec fn escape_value(v: Seq<char>) -> Seq<char>
    decreases v.len(),
{
    if v.len() == 0 {
        Seq::empty()
    } else if v[0] == '\\' || v[0] == '"' {
        seq!['\\', v[0]] + escape_value(v.drop_first())
    } else {
        seq![v[0]] + escape_value(v.drop_first())
    }
}

/// The field `key="value"`, the value escaped.
pub open spec fn field_text(key: Seq<char>, value: Seq<char>) -> Seq<char> {
    key + seq!['=', '"'] + escape_value(value) + seq!['"']
}

/// The fields `keys[i]="values[i]"`, in order, separated by single spaces.
pub open spec fn fields_text(keys: Seq<Seq<char>>, values: Seq<Seq<char>>) -> Seq<char>
    decreases keys.len(),
{
    if keys.len() == 0 {
        Seq::empty()
    } else if keys.len() == 1 {
        field_text(keys[0], values[0])
    } else {
        field_text(keys[0], values[0]) + seq![' '] + fields_text(
            keys.drop_first(),
            values.drop_first(),
        )
    }
}

/// `acc` with `keys[i]` set to `values[i]`, in order (a later value for a
/// key replaces an earlier one).
pub open spec fn fields_map(
    keys: Seq<Seq<char>>,
    values: Seq<Seq<char>>,
    acc: Map<Seq<char>, Seq<char>>,
) -> Map<Seq<char>, Seq<char>>
    decreases keys.len(),
{
    if keys.len() == 0 {
        acc
    } else {
        fields_map(keys.drop_first(), values.drop_first(), acc.insert(keys[0], values[0]))
    }
}

/// Whether `key` can be written as a field key: it holds no `=` and does not
/// start with a space.
pub open spec fn writable_key(key: Seq<char>) -> bool {
    &&& forall|i: int| 0 <= i < key.len() ==> key[i] != '='
    &&& key.len() > 0 ==> key[0] != ' '
}

proof fn lemma_byte_chars_ascii(c: char)
    requires
        (c as u32) < 128,
    ensures
        byte_chars(c) == seq![c],
{
    let u = c as u32;
    assert((u & 0x7F) == u) by (bit_vector)
        requires
            u < 128,
    ;
    assert(encode_scalar(u) =~= seq![u as u8]);
    assert(byte_chars(c) =~= seq![c]);
}

proof fn lemma_quoted_escaped(v: Seq<char>, rest: Seq<char>)
    requires
        is_ascii_seq(v),
    ensures
        quoted_value(escape_value(v) + seq!['"'] + rest) == (v, (escape_value(v).len() + 1) as nat),
    decreases v.len(),
{
    let s = escape_value(v) + seq!['"'] + rest;
    if v.len() == 0 {
        assert(s =~= seq!['"'] + rest);
        assert(v =~= Seq::<char>::empty());
    } else {
        let t = v.drop_first();
        assert(is_ascii_seq(t)) by {
            assert forall|i: int| 0 <= i < t.len() implies (#[trigger] t[i] as u32) < 128 by {
                assert(t[i] == v[i + 1]);
            }
        }
        lemma_quoted_escaped(t, rest);
        assert((v[0] as u32) < 128);
        lemma_byte_chars_ascii(v[0]);
        if v[0] == '\\' || v[0] == '"' {
            assert(s =~= seq!['\\', v[0]] + (escape_value(t) + seq!['"'] + rest));
            assert(s.skip(2) =~= escape_value(t) + seq!['"'] + rest);
        } else {
            assert(s =~= seq![v[0]] + (escape_value(t) + seq!['"'] + rest));
            assert(s.drop_first() =~= escape_value(t) + seq!['"'] + rest);
        }
        assert(seq![v[0]] + t =~= v);
    }
}

proof fn lemma_one_field(
    key: Seq<char>,
    value: Seq<char>,
    rest: Seq<char>,
    acc: Map<Seq<char>, Seq<char>>,
)
    requires
        writable_key(key),
        is_ascii_seq(value),
        rest.len() == 0 || rest[0] == ' ',
    ensures
        fields_from(field_text(key, value) + rest, acc) == fields_from(rest, acc.insert(key, value)),
{
    let esc = escape_value(value);
    let s = field_text(key, value) + rest;
    let n = key.len() as int;
    assert(s =~= key + (seq!['=', '"'] + esc + seq!['"'] + rest));
    assert(s[n] == '=');
    assert forall|j: int| 0 <= j < n implies s[j] != '=' by {
        assert(s[j] == key[j]);
    }
    lemma_find_char_unique(s, '=', n);
    assert(s[0] != ' ');
    assert(s.take(n) =~= key);
    let after = s.skip(n + 1);
    assert(after =~= seq!['"'] + (esc + seq!['"'] + rest));
    assert(after.drop_first() =~= esc + seq!['"'] + rest);
    lemma_quoted_escaped(value, rest);
    assert(after.skip(esc.len() as int + 2) =~= rest);
}

proof fn lemma_fields_from_text(
    keys: Seq<Seq<char>>,
    values: Seq<Seq<char>>,
    acc: Map<Seq<char>, Seq<char>>,
)
    requires
        keys.len() == values.len(),
        forall|i: int| 0 <= i < keys.len() ==> writable_key(#[trigger] keys[i]),
        forall|i: int| 0 <= i < values.len() ==> is_ascii_seq(#[trigger] values[i]),
    ensures
        fields_from(fields_text(keys, values), acc) == fields_map(keys, values, acc),
    decreases keys.len(),
{
    if keys.len() == 0 {
    } else {
        assert(writable_key(keys[0]));
        assert(is_ascii_seq(values[0]));
        let k1 = keys.drop_first();
        let v1 = values.drop_first();
        let acc1 = acc.insert(keys[0], values[0]);
        if keys.len() == 1 {
            assert(fields_text(keys, values) =~= field_text(keys[0], values[0]) + Seq::empty());
            lemma_one_field(keys[0], values[0], Seq::empty(), acc);
            assert(k1.len() == 0);
            assert(fields_map(k1, v1, acc1) == acc1);
            assert(fields_from(Seq::<char>::empty(), acc1) == acc1);
        } else {
            assert forall|i: int| 0 <= i < k1.len() implies writable_key(#[trigger] k1[i]) by {
                assert(k1[i] == keys[i + 1]);
            }
            assert forall|i: int| 0 <= i < v1.len() implies is_ascii_seq(#[trigger] v1[i]) by {
                assert(v1[i] == values[i + 1]);
            }
            let tail = seq![' '] + fields_text(k1, v1);
            assert(fields_text(keys, values) =~= field_text(keys[0], values[0]) + tail);
            lemma_one_field(keys[0], values[0], tail, acc);
            assert(tail.drop_first() =~= fields_text(k1, v1));
            assert(tail.len() > 0 && tail[0] == ' ');
            assert(fields_from(tail, acc1) == fields_from(tail.drop_first(), acc1));
            lemma_fields_from_text(k1, v1, acc1);
        }
    }
}

/// Writing fields and reading them back: for keys that hold no `=` and do
/// not start with a space, and ASCII values, the fields `key="value"` (values
/// escaped, fields separated by single spaces) parse back to the map of those
/// keys and values, a later value for a key replacing an earlier one.
pub proof fn lemma_fields_round_trip(keys: Seq<Seq<char>>, values: Seq<Seq<char>>)
    requires
        keys.len() == values.len(),
        forall|i: int| 0 <= i < keys.len() ==> writable_key(#[trigger] keys[i]),
        forall|i: int| 0 <= i < values.len() ==> is_ascii_seq(#[trigger] values[i]),
    ensures
        fields_of(fields_text(keys, values)) == fields_map(keys, values, Map::empty()),
{
    lemma_fields_from_text(keys, values, Map::empty());
}

/// An unquoted field: a key that can be written, `=`, and a value with no
/// space that does not start with a double quote, read alone, gives that key
/// with that value; and a text with no `=` holds no field.
pub proof fn lemma_unquoted_field(key: Seq<char>, value: Seq<char>, s: Seq<char>)
    ensures
        writable_key(key) && (forall|i: int| 0 <= i < value.len() ==> value[i] != ' ') && (
        value.len() == 0 || value[0] != '"') ==> fields_of(key + seq!['='] + value) == Map::<
            Seq<char>,
            Seq<char>,
        >::empty().insert(key, value),
        (forall|i: int| 0 <= i < s.len() ==> s[i] != '=') ==> fields_of(s) == Map::<
            Seq<char>,
            Seq<char>,
        >::empty(),
{
    if writable_key(key) && (forall|i: int| 0 <= i < value.len() ==> value[i] != ' ') && (
    value.len() == 0 || value[0] != '"') {
        let s = key + seq!['='] + value;
        let n = key.len() as int;
        assert(s[n] == '=');
        assert forall|j: int| 0 <= j < n implies s[j] != '=' by {
            assert(s[j] == key[j]);
        }
        lemma_find_char_unique(s, '=', n);
        assert(s[0] != ' ');
        assert(s.take(n) =~= key);
        let after = s.skip(n + 1);
        assert(after =~= value);
        assert forall|j: int| 0 <= j < after.len() implies after[j] != ' ' by {}
        lemma_find_char_unique(after, ' ', after.len() as int);
        assert(after.take(after.len() as int) =~= value);
        assert(after.skip(after.len() as int) =~= Seq::<char>::empty());
        let m = Map::<Seq<char>, Seq<char>>::empty().insert(key, value);
        assert(!(after.len() > 0 && after[0] == '"'));
        assert(fields_from(Seq::<char>::empty(), m) == m);
        assert(fields_from(s, Map::empty()) == fields_from(
            after.skip(after.len() as int),
            Map::<Seq<char>, Seq<char>>::empty().insert(s.take(n), after.take(after.len() as int)),
        ));
    }
    lemma_no_equals_no_fields(s, Map::empty());
}

proof fn lemma_no_equals_no_fields(s: Seq<char>, acc: Map<Seq<char>, Seq<char>>)
    ensures
        (forall|i: int| 0 <= i < s.len() ==> s[i] != '=') ==> fields_from(s, acc) == acc,
    decreases s.len(),
{
    if forall|i: int| 0 <= i < s.len() ==> s[i] != '=' {
        if s.len() > 0 {
            if s[0] == ' ' {
                assert forall|i: int| 0 <= i < s.drop_first().len() implies s.drop_first()[i]
                    != '=' by {
                    assert(s.drop_first()[i] == s[i + 1]);
                }
                lemma_no_equals_no_fields(s.drop_first(), acc);
            } else {
                lemma_find_char_unique(s, '=', s.len() as int);
            }
        }
    }
}

/// Appends `byte_chars(c)`.
fn push_byte_chars(out: &mut String, c: char)
    ensures
        final(out)@ == old(out)@ + byte_chars(c),
{
    let u = c as u32;
    let ghost bytes = encode_scalar(u);
    if u <= 0x7F {
        push_char(out, ((u & 0x7F) as u8) as char);
    } else if u <= 0x7FF {
        push_char(out, (0xC0 | ((u >> 6) & 0x1F) as u8) as char);
        push_char(out, (0x80 | (u & 0x3F) as u8) as char);
    } else if u <= 0xFFFF {
        push_char(out, (0xE0 | ((u >> 12) & 0x0F) as u8) as char);
        push_char(out, (0x80 | ((u >> 6) & 0x3F) as u8) as char);
        push_char(out, (0x80 | (u & 0x3F) as u8) as char);
    } else {
        push_char(out, (0xF0 | ((u >> 18) & 0x7) as u8) as char);
        push_char(out, (0x80 | ((u >> 12) & 0x3F) as u8) as char);
        push_char(out, (0x80 | ((u >> 6) & 0x3F) as u8) as char);
        push_char(out, (0x80 | (u & 0x3F) as u8) as char);
    }
    proof {
        vstd::utf8::char_is_scalar(c);
        assert(final(out)@ =~= old(out)@ + byte_chars(c));
    }
}

/// Reads a quoted value from `v[from..]` (just after the opening quote).
/// Returns the value and the position after what it took.
fn read_quoted(v: &Vec<char>, from: usize) -> (r: (String, usize))
    requires
        from <= v@.len(),
    ensures
        ({
            let q = quoted_value(v@.skip(from as int));
            r.0@ == q.0 && r.1 == from + q.1
        }),
{
    let n = v.len();
    let mut out = String::new();
    let mut i = from;
    loop
        invariant_except_break
            from <= i <= n == v@.len(),
            quoted_value(v@.skip(from as int)).0 == out@ + quoted_value(v@.skip(i as int)).0,
            quoted_value(v@.skip(from as int)).1 == (i - from) + quoted_value(
                v@.skip(i as int),
            ).1,
        ensures
            from <= i <= n,
            quoted_value(v@.skip(from as int)).0 == out@,
            quoted_value(v@.skip(from as int)).1 == i - from,
        decreases n - i,
    {
        let ghost s = v@.skip(i as int);
        if i >= n {
            assert(s.len() == 0);
            assert(out@ + Seq::<char>::empty() =~= out@);
            break;
        }
        if v[i] == '\\' && i + 1 < n {
            let ghost before = out@;
            push_byte_chars(&mut out, v[i + 1]);
            assert(s.skip(2) =~= v@.skip(i + 2));
            assert(before + (byte_chars(s[1]) + quoted_value(s.skip(2)).0) =~= out@
                + quoted_value(s.skip(2)).0);
            i = i + 2;
        } else if v[i] == '"' {
            assert(out@ + Seq::<char>::empty() =~= out@);
            i = i + 1;
            break;
        } else {
            let ghost before = out@;
            push_byte_chars(&mut out, v[i]);
            assert(s.drop_first() =~= v@.skip(i + 1));
            assert(before + (byte_chars(s[0]) + quoted_value(s.drop_first()).0) =~= out@
                + quoted_value(s.drop_first()).0);
            i = i + 1;
        }
    }
    (out, i)
}

/// Parses the field list `input` into a map (later keys win).
pub fn parse_fields(input: &str) -> (r: FieldMap)
    ensures
        r@ == fields_of(input@),
{
    let v = chars_of(input);
    parse_field_chars(&v)
}

/// Parses the field list held in `v` into a map (later keys win).
pub fn parse_field_chars(v: &Vec<char>) -> (r: FieldMap)
    ensures
        r@ == fields_of(v@),
{
    let ghost input = v@;
    let n = v.len();
    let mut fields = FieldMap::new();
    let mut i: usize = 0;
    assert(v@.skip(0) =~= v@);
    loop
        invariant_except_break
            i <= n == v@.len(),
            v@ == input,
            fields_of(input) == fields_from(v@.skip(i as int), fields@),
        ensures
            fields_of(input) == fields@,
        decreases n - i,
    {
        let ghost i0 = i;
        while i < n && v[i] == ' '
            invariant
                i0 <= i <= n == v@.len(),
                v@ == input,
                fields_of(input) == fields_from(v@.skip(i as int), fields@),
            decreases n - i,
        {
            assert(v@.skip(i as int).drop_first() =~= v@.skip(i + 1));
            i = i + 1;
        }
        let ghost s = v@.skip(i as int);
        if i >= n {
            assert(s.len() == 0);
            break;
        }
        let key_end = find_char_from(v, i, '=');
        assert(v@.subrange(i as int, n as int) =~= s);
        if key_end >= n {
            break;
        }
        let key = string_of_range(v, i, key_end);
        assert(s.take(key_end - i) =~= v@.subrange(i as int, key_end as int));
        let ghost after = s.skip(key_end - i + 1);
        assert(after =~= v@.skip(key_end + 1));
        let vstart = key_end + 1;
        if vstart < n && v[vstart] == '"' {
            assert(after.drop_first() =~= v@.skip(vstart + 1));
            let (value, next) = read_quoted(v, vstart + 1);
            proof {
                lemma_quoted_value_len(after.drop_first());
                let q = quoted_value(after.drop_first());
                assert(after.skip(q.1 as int + 1) =~= v@.skip(next as int));
            }
            fields.insert(key, value);
            assert(i < next <= n);
            i = next;
        } else {
            let vend = find_char_from(v, vstart, ' ');
            assert(v@.subrange(vstart as int, n as int) =~= after);
            let value = string_of_range(v, vstart, vend);
            assert(after.take(vend - vstart) =~= v@.subrange(vstart as int, vend as int));
            assert(after.skip(vend - vstart) =~= v@.skip(vend as int));
            fields.insert(key, value);
            assert(i < vend <= n);
            i = vend;
        }
    }
    fields
}

} // verus!
