//! The order of keys: that of their UTF-8 bytes, as Rust orders strings.

use vstd::prelude::*;
use vstd::string::*;
use vstd::utf8::{encode_utf8, encode_utf8_decode_utf8};

verus! {

/// `a` and `b` agree before position `i`, and there `a` ends or has the smaller byte.
pub open spec fn precedes_at(a: Seq<u8>, b: Seq<u8>, i: int) -> bool {
    &&& 0 <= i <= a.len()
    &&& i < b.len()
    &&& forall|j: int| 0 <= j < i ==> a[j] == b[j]
    &&& i < a.len() ==> a[i] < b[i]
}

/// `a` comes before `b` in the order of the dictionary.
pub open spec fn lex_lt(a: Seq<u8>, b: Seq<u8>) -> bool {
    exists|i: int| precedes_at(a, b, i)
}

/// The key `a` comes before the key `b`.
pub open spec fn key_lt(a: Seq<char>, b: Seq<char>) -> bool {
    lex_lt(encode_utf8(a), encode_utf8(b))
}

/// The keys of `keys` stand in rising order, none of them twice.
pub open spec fn keys_rise(keys: Seq<Seq<char>>) -> bool {
    forall|i: int, j: int| 0 <= i < j < keys.len() ==> key_lt(#[trigger] keys[i], #[trigger] keys[j])
}

/// Nothing comes before itself.
pub proof fn lemma_lex_lt_irreflexive(a: Seq<u8>)
    ensures
        !lex_lt(a, a),
{
}

/// What comes before something that comes before `c` comes before `c`.
pub proof fn lemma_lex_lt_transitive(a: Seq<u8>, b: Seq<u8>, c: Seq<u8>)
    requires
        lex_lt(a, b),
        lex_lt(b, c),
    ensures
        lex_lt(a, c),
{
    let i = choose|i: int| precedes_at(a, b, i);
    let j = choose|j: int| precedes_at(b, c, j);
    if i <= j {
        assert(precedes_at(a, c, i));
    } else {
        assert(precedes_at(a, c, j));
    }
}

/// Of two keys one comes before the other, or they are the same key.
pub proof fn lemma_key_order_total(a: Seq<char>, b: Seq<char>)
    ensures
        key_lt(a, b) || a == b || key_lt(b, a),
        !(key_lt(a, b) && a == b),
        !(key_lt(a, b) && key_lt(b, a)),
{
    let x = encode_utf8(a);
    let y = encode_utf8(b);
    lemma_lex_lt_irreflexive(x);
    if lex_lt(x, y) && lex_lt(y, x) {
        lemma_lex_lt_transitive(x, y, x);
    }
    if !lex_lt(x, y) && !lex_lt(y, x) {
        lemma_first_difference(x, y, 0);
        assert(x =~= y);
        lemma_same_bytes_same_key(a, b);
    }
}

proof fn lemma_first_difference(x: Seq<u8>, y: Seq<u8>, i: int)
    requires
        0 <= i <= x.len(),
        i <= y.len(),
        forall|j: int| 0 <= j < i ==> x[j] == y[j],
        !lex_lt(x, y),
        !lex_lt(y, x),
    ensures
        x.len() == y.len(),
        forall|j: int| 0 <= j < x.len() ==> x[j] == y[j],
    decreases x.len() - i,
{
    if i == x.len() {
        assert(!precedes_at(x, y, i));
    } else if i == y.len() {
        assert(!precedes_at(y, x, i));
    } else {
        assert(!precedes_at(x, y, i));
        assert(!precedes_at(y, x, i));
        lemma_first_difference(x, y, i + 1);
    }
}

/// Keys with the same bytes are the same key.
pub proof fn lemma_same_bytes_same_key(a: Seq<char>, b: Seq<char>)
    requires
        encode_utf8(a) == encode_utf8(b),
    ensures
        a == b,
{
    encode_utf8_decode_utf8(a);
    encode_utf8_decode_utf8(b);
}

/// The order of keys is transitive.
pub proof fn lemma_key_lt_transitive(a: Seq<char>, b: Seq<char>, c: Seq<char>)
    requires
        key_lt(a, b),
        key_lt(b, c),
    ensures
        key_lt(a, c),
{
    lemma_lex_lt_transitive(encode_utf8(a), encode_utf8(b), encode_utf8(c));
}

/// How one key stands to another.
#[derive(Clone, Copy, PartialEq, Eq, Debug)]
pub enum Place {
    Before,
    Same,
    After,
}

/// Where the key `a` stands with regard to the key `b`.
pub fn place_of(a: &str, b: &str) -> (place: Place)
    ensures
        match place {
            Place::Before => key_lt(a@, b@),
            Place::Same => a@ == b@,
            Place::After => key_lt(b@, a@),
        },
{
    let x = a.as_bytes();
    let y = b.as_bytes();
    let mut i: usize = 0;
    while i < x.len() && i < y.len()
        invariant
            i <= x.len(),
            i <= y.len(),
            x@ == encode_utf8(a@),
            y@ == encode_utf8(b@),
            forall|j: int| 0 <= j < i ==> x@[j] == y@[j],
        decreases x.len() - i,
    {
        if x[i] < y[i] {
            assert(precedes_at(x@, y@, i as int));
            return Place::Before;
        }
        if x[i] > y[i] {
            assert(precedes_at(y@, x@, i as int));
            return Place::After;
        }
        i = i + 1;
    }
    if i < y.len() {
        assert(precedes_at(x@, y@, i as int));
        Place::Before
    } else if i < x.len() {
        assert(precedes_at(y@, x@, i as int));
        Place::After
    } else {
        proof {
            assert(x@ =~= y@);
            lemma_same_bytes_same_key(a@, b@);
        }
        Place::Same
    }
}

/// Whether two texts are the same.
pub fn same_text(a: &str, b: &str) -> (same: bool)
    ensures
        same == (a@ == b@),
{
    proof {
        lemma_key_order_total(a@, b@);
    }
    match place_of(a, b) {
        Place::Same => true,
        _ => false,
    }
}

} // verus!
