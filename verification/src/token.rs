//! Tokens of sessions and their hashes.
use vstd::prelude::*;
use vstd::string::StringExecFns;
use vstd::utf8::encode_utf8;

use crate::outside::{random_bytes, sha256, sha256_digest};

verus! {

/// The hexadecimal digit for `d`.
pub open spec fn hex_digit(d: int) -> char {
    if d < 10 {
        (48 + d) as char
    } else {
        (87 + d) as char
    }
}

/// Bytes in lower-case hexadecimal, two digits for each.
pub open spec fn hex(data: Seq<u8>) -> Seq<char>
    decreases data.len(),
{
    if data.len() == 0 {
        Seq::empty()
    } else {
        hex(data.drop_last()).push(hex_digit(data.last() as int / 16)).push(
            hex_digit(data.last() as int % 16),
        )
    }
}

fn digit(d: u8) -> (r: &'static str)
    requires
        d < 16,
    ensures
        r@ == seq![hex_digit(d as int)],
{
    proof {
        reveal_strlit("0");
        reveal_strlit("1");
        reveal_strlit("2");
        reveal_strlit("3");
        reveal_strlit("4");
        reveal_strlit("5");
        reveal_strlit("6");
        reveal_strlit("7");
        reveal_strlit("8");
        reveal_strlit("9");
        reveal_strlit("a");
        reveal_strlit("b");
        reveal_strlit("c");
        reveal_strlit("d");
        reveal_strlit("e");
        reveal_strlit("f");
    }
    let r: &'static str = match d {
        0 => "0",
        1 => "1",
        2 => "2",
        3 => "3",
        4 => "4",
        5 => "5",
        6 => "6",
        7 => "7",
        8 => "8",
        9 => "9",
        10 => "a",
        11 => "b",
        12 => "c",
        13 => "d",
        14 => "e",
        _ => "f",
    };
    assert(r@ =~= seq![hex_digit(d as int)]);
    r
}

/// Writes bytes in hexadecimal.
pub fn hex_text(data: &[u8]) -> (r: String)
    ensures
        r@ == hex(data@),
{
    let mut s: String = String::new();
    let mut i: usize = 0;
    assert(data@.take(0) =~= Seq::empty());
    while i < data.len()
        invariant
            i <= data@.len(),
            s@ == hex(data@.take(i as int)),
        decreases data@.len() - i,
    {
        let b: u8 = data[i];
        s.append(digit(b / 16));
        s.append(digit(b % 16));
        proof {
            assert(data@.take(i + 1).drop_last() =~= data@.take(i as int));
            assert(s@ =~= hex(data@.take(i + 1)));
        }
        i = i + 1;
    }
    assert(data@.take(i as int) =~= data@);
    s
}

/// The hash of a token: the hexadecimal SHA-256 of its bytes.
pub open spec fn hashed(token: Seq<char>) -> Seq<char> {
    hex(sha256(encode_utf8(token)))
}

/// The hash that the service keeps of a token.
pub fn token_hash(token: &str) -> (r: String)
    ensures
        r@ == hashed(token@),
{
    let digest: Vec<u8> = sha256_digest(token.as_bytes());
    hex_text(digest.as_slice())
}

/// The hash of a password: that of the salt followed by the password.
pub open spec fn password_hashed(salt: Seq<char>, password: Seq<char>) -> Seq<char> {
    hashed(salt + password)
}

/// The hash of a password: that of the salt followed by the password.
pub fn password_hash(salt: &str, password: &str) -> (r: String)
    ensures
        r@ == password_hashed(salt@, password@),
        r@ == hashed(salt@ + password@),
{
    let mut s: String = salt.to_owned();
    s.append(password);
    token_hash(s.as_str())
}

/// A new token: 16 random bytes in hexadecimal.
pub fn new_token() -> (r: String)
    ensures
        exists|b: Seq<u8>| b.len() == 16 && r@ == #[trigger] hex(b),
        r@.len() == 32,
{
    let b: Vec<u8> = random_bytes(16);
    let r: String = hex_text(b.as_slice());
    proof {
        assert(r@ == hex(b@));
        lemma_hex_len(b@);
    }
    r
}

proof fn lemma_hex_len(data: Seq<u8>)
    ensures
        hex(data).len() == 2 * data.len(),
    decreases data.len(),
{
    if data.len() > 0 {
        lemma_hex_len(data.drop_last());
    }
}

/// Different bytes have different hexadecimal texts.
pub proof fn law_hex_is_injective(a: Seq<u8>, b: Seq<u8>)
    requires
        hex(a) == hex(b),
    ensures
        a == b,
    decreases a.len(),
{
    lemma_hex_len(a);
    lemma_hex_len(b);
    if a.len() > 0 {
        let x = hex(a);
        let y = hex(b);
        let n = x.len();
        assert(x.drop_last().drop_last() =~= hex(a.drop_last()));
        assert(y.drop_last().drop_last() =~= hex(b.drop_last()));
        law_hex_is_injective(a.drop_last(), b.drop_last());
        assert(x[n - 1] == hex_digit(a.last() as int % 16));
        assert(y[n - 1] == hex_digit(b.last() as int % 16));
        assert(x[n - 2] == hex_digit(a.last() as int / 16));
        assert(y[n - 2] == hex_digit(b.last() as int / 16));
        assert(a.last() == b.last());
        assert(a =~= a.drop_last().push(a.last()));
        assert(b =~= b.drop_last().push(b.last()));
    } else {
        assert(a =~= b);
    }
}

/// A password is hashed together with its salt: as the token is that the two make.
pub proof fn law_passwords_are_salted(salt: Seq<char>, password: Seq<char>)
    ensures
        password_hashed(salt, password) == hashed(salt + password),
        password_hashed(Seq::empty(), password) == hashed(password),
{
    assert(Seq::<char>::empty() + password =~= password);
}

} // verus!
