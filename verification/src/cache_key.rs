//! The key under which a result is cached, and the text that indexes it.
use vstd::prelude::*;

verus! {

/// Separates the parts of an index text. Bytes become the characters below it,
/// so it never occurs in the text of the parameters or of the block hash.
pub const SEPARATOR: char = '\u{100}';

/// What a [`Key`] stands for: the call, its SCALE-encoded parameters and the
/// encoded hash of the block that it is answered at.
#[verifier::ext_equal]
pub struct KeyModel {
    pub call: Seq<char>,
    pub params: Seq<u8>,
    pub at: Seq<u8>,
}

/// Identifies one read-only runtime call at one block.
#[derive(Debug)]
pub struct Key {
    pub call: &'static str,
    pub params: Vec<u8>,
    pub at: Vec<u8>,
}

impl View for Key {
    type V = KeyModel;

    open spec fn view(&self) -> KeyModel {
        KeyModel { call: self.call@, params: self.params@, at: self.at@ }
    }
}

/// Bytes as characters, one for one.
pub open spec fn byte_chars(bytes: Seq<u8>) -> Seq<char> {
    bytes.map_values(|b: u8| b as char)
}

/// `std::string::String::push` appends the given character.
pub assume_specification[ String::push ](text: &mut String, c: char)
    ensures
        final(text)@ == old(text)@.push(c),
;

/// Appends `bytes` to `text`, one character for each.
fn push_bytes(text: &mut String, bytes: &Vec<u8>)
    ensures
        final(text)@ == old(text)@ + byte_chars(bytes@),
{
    let mut i: usize = 0;
    assert(text@ =~= old(text)@ + byte_chars(bytes@.take(0)));
    while i < bytes.len()
        invariant
            i <= bytes@.len(),
            text@ == old(text)@ + byte_chars(bytes@.take(i as int)),
        decreases bytes@.len() - i,
    {
        text.push(bytes[i] as char);
        i = i + 1;
        assert(byte_chars(bytes@.take(i as int)) =~= byte_chars(bytes@.take(i - 1)).push(
            bytes@[i - 1] as char,
        ));
        assert(text@ =~= old(text)@ + byte_chars(bytes@.take(i as int)));
    }
    assert(bytes@.take(i as int) =~= bytes@);
}

impl Key {
    /// The text that stands for this key in the index of the cache.
    pub fn text(&self) -> (text: String)
        ensures
            text@ == self@.text(),
    {
        let mut text = String::new();
        push_bytes(&mut text, &self.params);
        text.push(SEPARATOR);
        push_bytes(&mut text, &self.at);
        text.push(SEPARATOR);
        text.append(self.call);
        assert(text@ =~= self@.text());
        text
    }

    /// A second key for the same call.
    pub fn duplicate(&self) -> (key: Key)
        ensures
            key@ == self@,
    {
        let params = self.params.clone();
        let at = self.at.clone();
        assert(params@ =~= self.params@);
        assert(at@ =~= self.at@);
        Key { call: self.call, params, at }
    }
}

/// No byte becomes the separator, and no two bytes become the same character.
proof fn lemma_byte_chars(a: Seq<u8>, b: Seq<u8>)
    ensures
        forall|i: int| 0 <= i < a.len() ==> #[trigger] byte_chars(a)[i] != SEPARATOR,
        byte_chars(a) == byte_chars(b) ==> a == b,
{
    assert forall|i: int| 0 <= i < a.len() implies #[trigger] byte_chars(a)[i] != SEPARATOR by {
        let c: u8 = a[i];
        assert(c as char as u32 == c as u32);
    }
    if byte_chars(a) == byte_chars(b) {
        assert(a.len() == byte_chars(a).len());
        assert(b.len() == byte_chars(b).len());
        assert forall|i: int| 0 <= i < a.len() implies a[i] == b[i] by {
            let x: u8 = a[i];
            let y: u8 = b[i];
            assert(byte_chars(a)[i] == x as char);
            assert(byte_chars(b)[i] == y as char);
        }
        assert(a =~= b);
    }
}

/// Two texts that agree up to and with their first separator agree on what
/// stands before it and on what stands after it.
proof fn lemma_split_at_separator(a1: Seq<char>, b1: Seq<char>, a2: Seq<char>, b2: Seq<char>)
    requires
        forall|i: int| 0 <= i < a1.len() ==> #[trigger] a1[i] != SEPARATOR,
        forall|i: int| 0 <= i < a2.len() ==> #[trigger] a2[i] != SEPARATOR,
        a1 + seq![SEPARATOR] + b1 == a2 + seq![SEPARATOR] + b2,
    ensures
        a1 == a2,
        b1 == b2,
{
    let left = a1 + seq![SEPARATOR] + b1;
    let right = a2 + seq![SEPARATOR] + b2;
    assert(left[a1.len() as int] == SEPARATOR);
    assert(right[a2.len() as int] == SEPARATOR);
    if a1.len() < a2.len() {
        assert(right[a1.len() as int] == a2[a1.len() as int]);
    }
    if a2.len() < a1.len() {
        assert(left[a2.len() as int] == a1[a2.len() as int]);
    }
    assert forall|i: int| 0 <= i < a1.len() implies a1[i] == a2[i] by {
        assert(left[i] == a1[i]);
        assert(right[i] == a2[i]);
    }
    assert(a1 =~= a2);
    assert(left.len() == right.len());
    assert forall|i: int| 0 <= i < b1.len() implies b1[i] == b2[i] by {
        assert(left[a1.len() + 1 + i] == b1[i]);
        assert(right[a1.len() + 1 + i] == b2[i]);
    }
    assert(b1 =~= b2);
}

impl KeyModel {
    /// The text that stands for a key in the index of the cache.
    pub open spec fn text(self) -> Seq<char> {
        byte_chars(self.params) + seq![SEPARATOR] + byte_chars(self.at) + seq![SEPARATOR]
            + self.call
    }

    /// Two keys with one index text are the same key.
    pub proof fn lemma_text_injective(a: KeyModel, b: KeyModel)
        requires
            a.text() == b.text(),
        ensures
            a == b,
    {
        let (pa, pb) = (byte_chars(a.params), byte_chars(b.params));
        let (ta, tb) = (byte_chars(a.at), byte_chars(b.at));
        lemma_byte_chars(a.params, b.params);
        lemma_byte_chars(b.params, a.params);
        lemma_byte_chars(a.at, b.at);
        lemma_byte_chars(b.at, a.at);
        let ra = ta + seq![SEPARATOR] + a.call;
        let rb = tb + seq![SEPARATOR] + b.call;
        assert(a.text() =~= pa + seq![SEPARATOR] + ra);
        assert(b.text() =~= pb + seq![SEPARATOR] + rb);
        lemma_split_at_separator(pa, ra, pb, rb);
        lemma_split_at_separator(ta, a.call, tb, b.call);
    }
}

/// A key stands for its three parts, each whole.
pub proof fn law_a_key_stands_for_its_parts(key: Key)
    ensures
        key@.call == key.call@,
        key@.params == key.params@,
        key@.at == key.at@,
{
}

/// Keys with one index text agree in every part.
pub proof fn law_one_text_one_key(a: Key, s: String, b: Key, t: String)
    requires
        call_ensures(Key::text, (&a,), s),
        call_ensures(Key::text, (&b,), t),
        s@ == t@,
    ensures
        a.call@ == b.call@,
        a.params@ == b.params@,
        a.at@ == b.at@,
{
    KeyModel::lemma_text_injective(a@, b@);
}

/// A second key for a call has the same parts.
pub proof fn law_a_duplicate_has_the_same_parts(key: Key, copy: Key)
    requires
        call_ensures(Key::duplicate, (&key,), copy),
    ensures
        copy.call@ == key.call@,
        copy.params@ == key.params@,
        copy.at@ == key.at@,
{
}

} // verus!
