use vstd::prelude::*;

verus! {

/// `a` and `b` agree below index `k`, and `k` is where `a` first falls below `b`:
/// either `a` ends there while `b` goes on, or the byte of `a` there is smaller.
pub open spec fn lt_at(a: Seq<u8>, b: Seq<u8>, k: int) -> bool {
    &&& 0 <= k <= a.len()
    &&& k <= b.len()
    &&& forall|j: int| 0 <= j < k ==> a[j] == b[j]
    &&& ((k == a.len() && k < b.len()) || (k < a.len() && k < b.len() && a[k] < b[k]))
}

/// Lexicographic order on byte strings: the order of `[u8]` in std.
pub open spec fn bytes_lt(a: Seq<u8>, b: Seq<u8>) -> bool {
    exists|k: int| #[trigger] lt_at(a, b, k)
}

/// The order of `str` and `String` in std: lexicographic on their UTF-8 bytes.
pub open spec fn str_lt(a: Seq<char>, b: Seq<char>) -> bool {
    bytes_lt(vstd::utf8::encode_utf8(a), vstd::utf8::encode_utf8(b))
}

/// `a` does not come after `b`.
pub open spec fn str_le(a: Seq<char>, b: Seq<char>) -> bool {
    !str_lt(b, a)
}

pub proof fn lemma_bytes_lt_irreflexive(a: Seq<u8>)
    ensures
        !bytes_lt(a, a),
{
}

pub proof fn lemma_bytes_lt_transitive(a: Seq<u8>, b: Seq<u8>, c: Seq<u8>)
    requires
        bytes_lt(a, b),
        bytes_lt(b, c),
    ensures
        bytes_lt(a, c),
{
    let k1 = choose|k: int| lt_at(a, b, k);
    let k2 = choose|k: int| lt_at(b, c, k);
    let k = if k1 < k2 {
        k1
    } else {
        k2
    };
    assert(lt_at(a, c, k));
}

pub proof fn lemma_bytes_trichotomy(a: Seq<u8>, b: Seq<u8>)
    ensures
        a == b || bytes_lt(a, b) || bytes_lt(b, a),
    decreases a.len(),
{
    if a.len() == 0 {
        if b.len() == 0 {
            assert(a =~= b);
        } else {
            assert(lt_at(a, b, 0));
        }
    } else if b.len() == 0 {
        assert(lt_at(b, a, 0));
    } else if a[0] != b[0] {
        if a[0] < b[0] {
            assert(lt_at(a, b, 0));
        } else {
            assert(lt_at(b, a, 0));
        }
    } else {
        let a1 = a.drop_first();
        let b1 = b.drop_first();
        lemma_bytes_trichotomy(a1, b1);
        assert(forall|j: int| 0 < j < a.len() ==> a[j] == #[trigger] a1[j - 1]);
        assert(forall|j: int| 0 < j < b.len() ==> b[j] == #[trigger] b1[j - 1]);
        if a1 == b1 {
            assert forall|j: int| 0 <= j < a.len() implies a[j] == b[j] by {
                if j > 0 {
                    assert(a1[j - 1] == b1[j - 1]);
                }
            }
            assert(a =~= b);
        } else if bytes_lt(a1, b1) {
            let k = choose|k: int| lt_at(a1, b1, k);
            assert forall|j: int| 0 <= j < k + 1 implies a[j] == b[j] by {
                if j > 0 {
                    assert(a1[j - 1] == b1[j - 1]);
                }
            }
            assert(lt_at(a, b, k + 1));
        } else {
            let k = choose|k: int| lt_at(b1, a1, k);
            assert forall|j: int| 0 <= j < k + 1 implies b[j] == a[j] by {
                if j > 0 {
                    assert(a1[j - 1] == b1[j - 1]);
                }
            }
            assert(lt_at(b, a, k + 1));
        }
    }
}

pub proof fn lemma_str_lt_irreflexive(a: Seq<char>)
    ensures
        !str_lt(a, a),
{
}

pub proof fn lemma_str_lt_transitive(a: Seq<char>, b: Seq<char>, c: Seq<char>)
    requires
        str_lt(a, b),
        str_lt(b, c),
    ensures
        str_lt(a, c),
{
    lemma_bytes_lt_transitive(
        vstd::utf8::encode_utf8(a),
        vstd::utf8::encode_utf8(b),
        vstd::utf8::encode_utf8(c),
    );
}

/// Two different strings are ordered one way or the other.
pub proof fn lemma_str_trichotomy(a: Seq<char>, b: Seq<char>)
    ensures
        a == b || str_lt(a, b) || str_lt(b, a),
{
    broadcast use vstd::utf8::encode_utf8_decode_utf8;

    lemma_bytes_trichotomy(vstd::utf8::encode_utf8(a), vstd::utf8::encode_utf8(b));
    assert(vstd::utf8::decode_utf8(vstd::utf8::encode_utf8(a)) == a);
    assert(vstd::utf8::decode_utf8(vstd::utf8::encode_utf8(b)) == b);
}

/// `str_le` is transitive.
pub proof fn lemma_str_le_transitive(a: Seq<char>, b: Seq<char>, c: Seq<char>)
    requires
        str_le(a, b),
        str_le(b, c),
    ensures
        str_le(a, c),
{
    if str_lt(c, a) {
        lemma_str_trichotomy(a, b);
        if a == b {
        } else if str_lt(a, b) {
            lemma_str_lt_transitive(c, a, b);
        }
    }
}

/// Compares two byte strings as std orders `[u8]`.
pub fn bytes_less(a: &[u8], b: &[u8]) -> (res: bool)
    ensures
        res == bytes_lt(a@, b@),
{
    let mut i: usize = 0;
    while i < a.len() && i < b.len()
        invariant
            i <= a@.len(),
            i <= b@.len(),
            forall|j: int| 0 <= j < i ==> a@[j] == b@[j],
        decreases a@.len() - i,
    {
        if a[i] != b[i] {
            if a[i] < b[i] {
                assert(lt_at(a@, b@, i as int));
                return true;
            } else {
                assert forall|k: int| !lt_at(a@, b@, k) by {
                    if lt_at(a@, b@, k) && k > i {
                        assert(a@[i as int] == b@[i as int]);
                    }
                }
                return false;
            }
        }
        i = i + 1;
    }
    if a.len() < b.len() {
        assert(lt_at(a@, b@, i as int));
        true
    } else {
        assert forall|k: int| !lt_at(a@, b@, k) by {
            if lt_at(a@, b@, k) && k < i {
                assert(a@[k] == b@[k]);
            }
        }
        false
    }
}

/// Compares two strings as std orders `str`: `a < b`.
pub fn str_less(a: &str, b: &str) -> (res: bool)
    ensures
        res == str_lt(a@, b@),
{
    bytes_less(a.as_bytes(), b.as_bytes())
}

} // verus!

verus! {

/// Byte strings are compared at their first difference: where `a` and `b` first differ,
/// at index `k`, `a` comes first exactly when its byte there is the smaller number.
pub proof fn lemma_bytes_lt_first_difference(a: Seq<u8>, b: Seq<u8>, k: int)
    requires
        0 <= k < a.len(),
        k < b.len(),
        forall|j: int| 0 <= j < k ==> a[j] == b[j],
        a[k] != b[k],
    ensures
        bytes_lt(a, b) <==> a[k] < b[k],
        bytes_lt(b, a) <==> b[k] < a[k],
{
    if a[k] < b[k] {
        assert(lt_at(a, b, k));
    } else {
        assert(lt_at(b, a, k));
    }
    if bytes_lt(a, b) {
        let m = choose|m: int| lt_at(a, b, m);
        if m > k {
            assert(a[k] == b[k]);
        }
    }
    if bytes_lt(b, a) {
        let m = choose|m: int| lt_at(b, a, m);
        if m > k {
            assert(b[k] == a[k]);
        }
    }
}

/// A byte string comes before every longer one that it begins.
pub proof fn lemma_bytes_lt_prefix(a: Seq<u8>, b: Seq<u8>)
    requires
        a.len() < b.len(),
        a == b.take(a.len() as int),
    ensures
        bytes_lt(a, b),
        !bytes_lt(b, a),
{
    assert(lt_at(a, b, a.len() as int));
    if bytes_lt(b, a) {
        let m = choose|m: int| lt_at(b, a, m);
        assert(b[m] == a[m]);
    }
}

/// The UTF-8 bytes of two texts one after the other are the bytes of the first, then
/// those of the second.
pub proof fn lemma_encode_utf8_append(a: Seq<char>, b: Seq<char>)
    ensures
        vstd::utf8::encode_utf8(a + b) == vstd::utf8::encode_utf8(a) + vstd::utf8::encode_utf8(b),
    decreases a.len(),
{
    if a.len() > 0 {
        assert((a + b).drop_first() =~= a.drop_first() + b);
        assert((a + b)[0] == a[0]);
        lemma_encode_utf8_append(a.drop_first(), b);
        assert(vstd::utf8::encode_utf8(a + b) =~= vstd::utf8::encode_utf8(a) + vstd::utf8::encode_utf8(b));
    } else {
        assert(a + b =~= b);
        assert(vstd::utf8::encode_utf8(a) =~= Seq::<u8>::empty());
        assert(vstd::utf8::encode_utf8(a) + vstd::utf8::encode_utf8(b) =~= vstd::utf8::encode_utf8(b));
    }
}

/// Strings are compared by their UTF-8 bytes: where the bytes of `a` and `b` first
/// differ, `a` comes first exactly when its byte there is the smaller number.
pub proof fn lemma_str_lt_first_byte_difference(a: Seq<char>, b: Seq<char>, k: int)
    requires
        0 <= k < vstd::utf8::encode_utf8(a).len(),
        k < vstd::utf8::encode_utf8(b).len(),
        forall|j: int| 0 <= j < k ==> vstd::utf8::encode_utf8(a)[j] == vstd::utf8::encode_utf8(b)[j],
        vstd::utf8::encode_utf8(a)[k] != vstd::utf8::encode_utf8(b)[k],
    ensures
        str_lt(a, b) <==> vstd::utf8::encode_utf8(a)[k] < vstd::utf8::encode_utf8(b)[k],
{
    lemma_bytes_lt_first_difference(vstd::utf8::encode_utf8(a), vstd::utf8::encode_utf8(b), k);
}

/// For text in ASCII, as the names of the data set are, strings are compared letter by
/// letter: where `a` and `b` first differ, at character `k`, and both characters there
/// are ASCII, `a` comes first exactly when its character has the smaller code.
pub proof fn lemma_str_lt_first_ascii_difference(a: Seq<char>, b: Seq<char>, k: int)
    requires
        0 <= k < a.len(),
        k < b.len(),
        a.take(k) == b.take(k),
        a[k] != b[k],
        (a[k] as u32) < 0x80,
        (b[k] as u32) < 0x80,
    ensures
        str_lt(a, b) <==> (a[k] as u32) < (b[k] as u32),
{
    let p = a.take(k);
    let ra = a.skip(k);
    let rb = b.skip(k);
    assert(a =~= p + ra);
    assert(b =~= p + rb);
    lemma_encode_utf8_append(p, ra);
    lemma_encode_utf8_append(p, rb);
    let ep = vstd::utf8::encode_utf8(p);
    let ea = vstd::utf8::encode_utf8(a);
    let eb = vstd::utf8::encode_utf8(b);
    let x = a[k] as u32;
    let y = b[k] as u32;
    assert(ra[0] == a[k] && rb[0] == b[k]);
    assert(vstd::utf8::encode_utf8(ra) == vstd::utf8::encode_scalar(x) + vstd::utf8::encode_utf8(ra.drop_first()));
    assert(vstd::utf8::encode_utf8(rb) == vstd::utf8::encode_scalar(y) + vstd::utf8::encode_utf8(rb.drop_first()));
    assert(((x & 0x7F) as u8) as u32 == x) by (bit_vector)
        requires
            x < 0x80,
    ;
    assert(((y & 0x7F) as u8) as u32 == y) by (bit_vector)
        requires
            y < 0x80,
    ;
    let m = ep.len() as int;
    assert(ea[m] == vstd::utf8::encode_scalar(x)[0]);
    assert(eb[m] == vstd::utf8::encode_scalar(y)[0]);
    assert(ea[m] as u32 == x);
    assert(eb[m] as u32 == y);
    vstd::utf8::char_u32_cast(a[k], x);
    vstd::utf8::char_u32_cast(b[k], y);
    assert(x != y);
    assert forall|j: int| 0 <= j < m implies ea[j] == eb[j] by {
        assert(ea[j] == ep[j]);
        assert(eb[j] == ep[j]);
    }
    lemma_bytes_lt_first_difference(ea, eb, m);
}

/// A string comes before every longer one that it begins.
pub proof fn lemma_str_lt_prefix(a: Seq<char>, b: Seq<char>)
    requires
        a.len() < b.len(),
        a == b.take(a.len() as int),
    ensures
        str_lt(a, b),
        !str_lt(b, a),
{
    let r = b.skip(a.len() as int);
    assert(b =~= a + r);
    lemma_encode_utf8_append(a, r);
    let ea = vstd::utf8::encode_utf8(a);
    let eb = vstd::utf8::encode_utf8(b);
    assert(r.len() > 0);
    assert(vstd::utf8::encode_utf8(r) == vstd::utf8::encode_scalar(r[0] as u32) + vstd::utf8::encode_utf8(r.drop_first()));
    assert(vstd::utf8::encode_scalar(r[0] as u32).len() > 0);
    assert(ea =~= eb.take(ea.len() as int));
    lemma_bytes_lt_prefix(ea, eb);
}

} // verus!
