//! Secrets: what is stored of them, under which key, and what becomes of the keys.
use vstd::prelude::*;
use vstd::utf8::encode_utf8;

use crate::command::DraftUpdateItemView;
use crate::crypto::{
    decrypted, dek_of, encrypted, master_key_from, master_key_in, opened_by, rewrapped,
    rotation_key, starting_keys,
};
use crate::jobs::is_due;
use crate::laws::checks::defines;
use crate::model::{CiphertextView, GroupDefView, ItemDefView, ValueType, ValueView};
use crate::outside::{aead_sealed, b64_bytes, b64_text};
use crate::publish::{is_secret_item, submitted};

verus! {

/// What is stored of a secret is sealed: the text under the data key, and the data key under the current master
/// key, whose generation is stored with it.
pub proof fn law_encryption_seals(
    keys: Seq<Seq<u8>>,
    dek: Seq<u8>,
    nonce: Seq<u8>,
    edek_nonce: Seq<u8>,
    plain: Seq<u8>,
)
    requires
        0 < keys.len() <= u64::MAX,
        encrypted(keys, dek, nonce, edek_nonce, plain) is Ok,
    ensures
        ({
            let c = encrypted(keys, dek, nonce, edek_nonce, plain)->Ok_0;
            &&& aead_sealed(dek, nonce, plain) matches Some(sealed) && c.ct == b64_text(sealed)
            &&& aead_sealed(keys[keys.len() - 1], edek_nonce, dek) matches Some(sealed) && c.edek
                == b64_text(sealed)
            &&& c.nonce == b64_text(nonce) && c.edek_nonce == b64_text(edek_nonce)
            &&& c.dek_v == keys.len()
        }),
{
}

/// A secret is read with the master key of its generation, whatever else is in the ring.
pub proof fn law_generation_decides(a: Seq<Seq<u8>>, b: Seq<Seq<u8>>, c: CiphertextView)
    requires
        1 <= c.dek_v <= a.len(),
        c.dek_v <= b.len(),
        a[c.dek_v - 1] == b[c.dek_v - 1],
    ensures
        decrypted(a, c) == decrypted(b, c),
{
}

/// Wrapping a data key anew leaves the data alone, and puts the same data key under the current master key.
pub proof fn law_rewrapping_keeps_the_data(keys: Seq<Seq<u8>>, c: CiphertextView, nonce: Seq<u8>)
    requires
        keys.len() <= u64::MAX,
        rewrapped(keys, c, nonce) is Ok,
    ensures
        ({
            let d = rewrapped(keys, c, nonce)->Ok_0;
            &&& d.ct == c.ct && d.nonce == c.nonce && d.enc == c.enc && d.v == c.v
            &&& 1 <= c.dek_v <= keys.len() && d.dek_v == keys.len()
            &&& dek_of(keys[c.dek_v - 1], c) matches Ok(dek) && (aead_sealed(
                keys[keys.len() - 1],
                nonce,
                dek,
            ) matches Some(sealed) && d.edek == b64_text(sealed))
            &&& d.edek_nonce == b64_text(nonce)
        }),
{
}

/// A data key is due exactly where its master key is older than the current one.
pub proof fn law_older_keys_are_due(keys: Seq<Seq<u8>>, c: CiphertextView)
    ensures
        is_due(keys, c) <==> c.dek_v + 1 <= keys.len(),
{
}

/// A node starts with its master key, then the keys of the ring file in their order, without the master key a
/// second time.
pub proof fn law_starting_ring_has_every_key(kek: Seq<u8>, loaded: Seq<Seq<u8>>)
    ensures
        ({
            let ring = starting_keys(kek, loaded);
            &&& ring.len() > 0 && ring[0] == kek
            &&& forall|i: int| 1 <= i < ring.len() ==> #[trigger] ring[i] != kek && loaded.contains(ring[i])
            &&& forall|i: int| 0 <= i < loaded.len() ==> ring.contains(#[trigger] loaded[i])
        }),
    decreases loaded.len(),
{
    let ring = starting_keys(kek, loaded);
    if loaded.len() > 0 {
        let d = loaded.drop_last();
        let before = starting_keys(kek, d);
        law_starting_ring_has_every_key(kek, d);
        assert forall|i: int| 1 <= i < ring.len() implies #[trigger] ring[i] != kek && loaded.contains(
            ring[i],
        ) by {
            if i < before.len() {
                assert(ring[i] == before[i]);
                assert(d.contains(before[i]));
                let j = choose|j: int| 0 <= j < d.len() && d[j] == before[i];
                assert(loaded[j] == ring[i]);
            } else {
                assert(loaded[loaded.len() - 1] == ring[i]);
            }
        }
        assert forall|i: int| 0 <= i < loaded.len() implies ring.contains(#[trigger] loaded[i]) by {
            if i < d.len() {
                assert(d[i] == loaded[i]);
                assert(before.contains(d[i]));
                let j = choose|j: int| 0 <= j < before.len() && before[j] == d[i];
                assert(ring[j] == loaded[i]);
            } else if loaded[i] == kek {
                assert(ring[0] == kek);
            } else {
                assert(ring[ring.len() - 1] == loaded[i]);
            }
        }
    } else {
        assert(ring[0] == kek);
    }
}

/// A ring that was written and is read again is the same ring, so that every secret keeps its generation: where it
/// begins with the master key and has it once.
pub proof fn law_restart_keeps_the_ring(kek: Seq<u8>, ring: Seq<Seq<u8>>)
    requires
        ring.len() > 0,
        ring[0] == kek,
        forall|i: int| 1 <= i < ring.len() ==> #[trigger] ring[i] != kek,
    ensures
        starting_keys(kek, ring) == ring,
    decreases ring.len(),
{
    let d = ring.drop_last();
    if d.len() > 0 {
        assert(d[0] == kek);
        assert forall|i: int| 1 <= i < d.len() implies #[trigger] d[i] != kek by {
            assert(d[i] == ring[i]);
        }
        law_restart_keeps_the_ring(kek, d);
        assert(ring[ring.len() - 1] != kek);
        assert(d.push(ring.last()) =~= ring);
    } else {
        assert(d =~= Seq::empty());
        assert(starting_keys(kek, d) == seq![kek]);
        assert(ring =~= seq![kek]);
    }
}

/// A wrapped key is found where one of the keys opens it, and by the newest that does; without a wrapped one, the
/// key of a rotation is the one in the clear, if it has 32 bytes.
pub proof fn law_rotations_bring_their_key(keys: Seq<Seq<u8>>, n: nat, kek: Seq<u8>, wrapped: Seq<u8>)
    requires
        n <= keys.len(),
    ensures
        match opened_by(keys, n, wrapped) {
            Some(k) => exists|i: int|
                0 <= i < n && master_key_in(#[trigger] keys[i], wrapped) == Ok::<Seq<u8>, Seq<char>>(k)
                    && forall|j: int| i < j < n ==> master_key_in(#[trigger] keys[j], wrapped) is Err,
            None => forall|i: int| 0 <= i < n ==> master_key_in(#[trigger] keys[i], wrapped) is Err,
        },
        wrapped.len() > 0 ==> rotation_key(keys, kek, wrapped) == opened_by(keys, keys.len(), wrapped),
        wrapped.len() == 0 ==> rotation_key(keys, kek, wrapped) == (if kek.len() == 32 {
            Some(kek)
        } else {
            None
        }),
    decreases n,
{
    if n > 0 {
        law_rotations_bring_their_key(keys, (n - 1) as nat, kek, wrapped);
        match master_key_in(keys[n - 1], wrapped) {
            Ok(k) => {
                assert(master_key_in(keys[n - 1], wrapped) == Ok::<Seq<u8>, Seq<char>>(k));
            },
            Err(_) => {
                if opened_by(keys, n, wrapped) is Some {
                    let k = opened_by(keys, n, wrapped)->0;
                    let i = choose|i: int|
                        0 <= i < n - 1 && master_key_in(#[trigger] keys[i], wrapped) == Ok::<
                            Seq<u8>,
                            Seq<char>,
                        >(k) && forall|j: int|
                            i < j < n - 1 ==> master_key_in(#[trigger] keys[j], wrapped) is Err;
                    assert(master_key_in(keys[i], wrapped) == Ok::<Seq<u8>, Seq<char>>(k));
                }
            },
        }
    }
}

/// The master key comes from the text where there is one, or else from the file; it has 32 bytes.
pub proof fn law_master_keys_have_32_bytes(text: Option<Seq<char>>, file: Option<Seq<u8>>)
    ensures
        match (text, file) {
            (Some(t), _) => match b64_bytes(t) {
                Ok(k) => (master_key_from(text, file) is Ok <==> k.len() == 32) && (k.len() == 32
                    ==> master_key_from(text, file)->Ok_0 == Some(k)),
                Err(_) => master_key_from(text, file) is Err,
            },
            (None, Some(k)) => (master_key_from(text, file) is Ok <==> k.len() == 32) && (k.len() == 32
                ==> master_key_from(text, file)->Ok_0 == Some(k)),
            (None, None) => master_key_from(text, file) == Ok::<Option<Seq<u8>>, Seq<char>>(None),
        },
{
}

/// A secret of a generation that the ring does not have is read with the current master key.
pub proof fn law_unknown_generations_use_the_current_key(keys: Seq<Seq<u8>>, c: CiphertextView)
    requires
        keys.len() > 0,
        c.dek_v == 0 || c.dek_v > keys.len(),
    ensures
        decrypted(keys, c) == decrypted(
            seq![keys[keys.len() - 1]],
            CiphertextView { dek_v: 1, ..c },
        ),
{
    let d = CiphertextView { dek_v: 1, ..c };
    assert(dek_of(keys.last(), c) == dek_of(keys.last(), d));
}

/// What is submitted of an update is for the same item. The text of a secret item is submitted as a secret that
/// reads as that text; all else is submitted as it is.
pub proof fn law_secret_texts_are_encrypted(
    keys: Seq<Seq<u8>>,
    groups: Seq<GroupDefView>,
    a: DraftUpdateItemView,
    b: DraftUpdateItemView,
)
    requires
        submitted(keys, groups, a, b),
    ensures
        b.group == a.group,
        b.key == a.key,
        ({
            let secret = exists|def: ItemDefView| #[trigger]
                defines(groups, a.group, def) && def.key == a.key && def.ty == ValueType::Secret;
            &&& secret && a.value is String ==> (b.value matches ValueView::Secret(c) && (decrypted(keys, c) matches Ok(
                plain,
            ) && plain == encode_utf8(a.value->String_0)))
            &&& !(secret && a.value is String) ==> b.value == a.value
        }),
{
    if is_secret_item(groups, a.group, a.key) {
        let (i, j) = choose|i: int, j: int|
            0 <= i < groups.len() && 0 <= j < groups[i].items.len() && groups[i].name == a.group && (
            #[trigger] groups[i].items[j]).key == a.key && groups[i].items[j].ty == ValueType::Secret;
        assert(defines(groups, a.group, groups[i].items[j]));
    }
    if exists|def: ItemDefView| #[trigger]
        defines(groups, a.group, def) && def.key == a.key && def.ty == ValueType::Secret {
        let def = choose|def: ItemDefView| #[trigger]
            defines(groups, a.group, def) && def.key == a.key && def.ty == ValueType::Secret;
        let (i, j) = choose|i: int, j: int|
            0 <= i < groups.len() && 0 <= j < groups[i].items.len() && groups[i].name == a.group && (
            #[trigger] groups[i].items[j]) == def;
        assert(groups[i].items[j].key == a.key);
        assert(is_secret_item(groups, a.group, a.key));
    }
}

} // verus!
