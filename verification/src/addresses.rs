use vstd::prelude::*;

verus! {

/// A character that can be part of a chain address: an ASCII digit or
/// letter.
pub open spec fn is_addr_char(c: char) -> bool {
    ('0' as int <= c as int && c as int <= '9' as int) || ('a' as int <= c as int && c as int
        <= 'z' as int) || ('A' as int <= c as int && c as int <= 'Z' as int)
}

/// A character of the legacy address alphabet: the digits and letters
/// without the four that the alphabet excludes.
pub open spec fn is_base58_char(c: char) -> bool {
    is_addr_char(c) && c as int != '0' as int && c as int != 'O' as int && c as int != 'I' as int
        && c as int != 'l' as int
}

/// A character of the VM-native address data alphabet: lower-case letters
/// and digits without the four that the alphabet excludes.
pub open spec fn is_bech32_char(c: char) -> bool {
    (('0' as int <= c as int && c as int <= '9' as int) || ('a' as int <= c as int && c as int
        <= 'z' as int)) && c as int != '1' as int && c as int != 'b' as int && c as int != 'i' as int
        && c as int != 'o' as int
}

/// A syntactically valid legacy address: 34 characters of the legacy
/// alphabet starting with the chain's two legacy prefixes.
pub open spec fn legacy_address(a: Seq<char>) -> bool {
    &&& a.len() == 34
    &&& (a[0] as int == '8' as int || a[0] as int == 'd' as int)
    &&& forall|k: int| 0 <= k < a.len() ==> is_base58_char(#[trigger] a[k])
}

/// A syntactically valid VM-native address: the "df1" prefix followed by
/// data characters, 42 to 62 characters in all.
pub open spec fn native_address(a: Seq<char>) -> bool {
    &&& 42 <= a.len() <= 62
    &&& a[0] as int == 'd' as int
    &&& a[1] as int == 'f' as int
    &&& a[2] as int == '1' as int
    &&& forall|k: int| 3 <= k < a.len() ==> is_bech32_char(#[trigger] a[k])
}

/// A syntactically valid chain address, in either format.
pub open spec fn valid_address(a: Seq<char>) -> bool {
    legacy_address(a) || native_address(a)
}

/// A maximal run of address characters: s[i..j) are all address characters
/// and the run extends in neither direction.
pub open spec fn token_at(s: Seq<char>, i: int, j: int) -> bool {
    &&& 0 <= i < j <= s.len()
    &&& forall|k: int| i <= k < j ==> is_addr_char(#[trigger] s[k])
    &&& (i == 0 || !is_addr_char(s[i - 1]))
    &&& (j == s.len() || !is_addr_char(s[j]))
}

fn addr_char(c: char) -> (b: bool)
    ensures
        b == is_addr_char(c),
{
    let u = c as u32;
    ('0' as u32 <= u && u <= '9' as u32) || ('a' as u32 <= u && u <= 'z' as u32) || ('A' as u32
        <= u && u <= 'Z' as u32)
}

fn base58_char(c: char) -> (b: bool)
    ensures
        b == is_base58_char(c),
{
    let u = c as u32;
    addr_char(c) && u != '0' as u32 && u != 'O' as u32 && u != 'I' as u32 && u != 'l' as u32
}

fn bech32_char(c: char) -> (b: bool)
    ensures
        b == is_bech32_char(c),
{
    let u = c as u32;
    (('0' as u32 <= u && u <= '9' as u32) || ('a' as u32 <= u && u <= 'z' as u32)) && u
        != '1' as u32 && u != 'b' as u32 && u != 'i' as u32 && u != 'o' as u32
}

#[verifier::loop_isolation(false)]
fn check_legacy(tok: &str) -> (b: bool)
    ensures
        b == legacy_address(tok@),
{
    let n = tok.unicode_len();
    if n != 34 {
        return false;
    }
    let c0 = tok.get_char(0);
    if !(c0 as u32 == '8' as u32 || c0 as u32 == 'd' as u32) {
        return false;
    }
    let mut k: usize = 0;
    while k < n
        invariant
            k <= n,
            forall|p: int| 0 <= p < k ==> is_base58_char(#[trigger] tok@[p]),
        decreases n - k,
    {
        if !base58_char(tok.get_char(k)) {
            return false;
        }
        k = k + 1;
    }
    true
}

#[verifier::loop_isolation(false)]
fn check_native(tok: &str) -> (b: bool)
    ensures
        b == native_address(tok@),
{
    let n = tok.unicode_len();
    if n < 42 || n > 62 {
        return false;
    }
    let c0 = tok.get_char(0);
    let c1 = tok.get_char(1);
    let c2 = tok.get_char(2);
    if !(c0 as u32 == 'd' as u32 && c1 as u32 == 'f' as u32 && c2 as u32 == '1' as u32) {
        return false;
    }
    let mut k: usize = 3;
    while k < n
        invariant
            3 <= k <= n,
            forall|p: int| 3 <= p < k ==> is_bech32_char(#[trigger] tok@[p]),
        decreases n - k,
    {
        if !bech32_char(tok.get_char(k)) {
            return false;
        }
        k = k + 1;
    }
    true
}

/// Checks a token for syntactic address validity in either format.
pub fn is_valid_address(tok: &str) -> (b: bool)
    ensures
        b == valid_address(tok@),
{
    check_legacy(tok) || check_native(tok)
}

#[verifier::loop_isolation(false)]
fn contains_string(v: &Vec<String>, s: &String) -> (b: bool)
    ensures
        b == exists|p: int| 0 <= p < v@.len() && #[trigger] v@[p]@ == s@,
{
    let mut i: usize = 0;
    while i < v.len()
        invariant
            i <= v@.len(),
            forall|p: int| 0 <= p < i ==> #[trigger] v@[p]@ != s@,
        decreases v@.len() - i,
    {
        if v[i] == *s {
            return true;
        }
        i = i + 1;
    }
    false
}

/// Scans a VM payload rendered as text for syntactically valid chain
/// addresses: the result holds exactly the maximal digit-and-letter runs of
/// the text that are valid addresses, each once, in order of first
/// appearance.
#[verifier::loop_isolation(false)]
pub fn extract_dfi_addresses(data: &str) -> (r: Vec<String>)
    ensures
        forall|p: int, q: int| 0 <= p < q < r@.len() ==> r@[p]@ != r@[q]@,
        forall|p: int|
            0 <= p < r@.len() ==> valid_address(#[trigger] r@[p]@) && exists|i: int, j: int|
                token_at(data@, i, j) && data@.subrange(i, j) == r@[p]@,
        forall|i: int, j: int|
            token_at(data@, i, j) && valid_address(data@.subrange(i, j)) ==> exists|p: int|
                0 <= p < r@.len() && #[trigger] r@[p]@ == data@.subrange(i, j),
{
    let n = data.unicode_len();
    let mut r: Vec<String> = Vec::new();
    let mut i: usize = 0;
    while i < n
        invariant
            i <= n,
            n == data@.len(),
            i == 0 || i == n || !is_addr_char(data@[i as int - 1]) || !is_addr_char(
                data@[i as int],
            ),
            forall|p: int, q: int| 0 <= p < q < r@.len() ==> r@[p]@ != r@[q]@,
            forall|p: int|
                0 <= p < r@.len() ==> valid_address(#[trigger] r@[p]@) && exists|i0: int, j0: int|
                    token_at(data@, i0, j0) && data@.subrange(i0, j0) == r@[p]@,
            forall|i0: int, j0: int|
                token_at(data@, i0, j0) && j0 <= i && valid_address(data@.subrange(i0, j0))
                    ==> exists|p: int|
                    0 <= p < r@.len() && #[trigger] r@[p]@ == data@.subrange(i0, j0),
        decreases n - i,
    {
        let c = data.get_char(i);
        if !addr_char(c) {
            proof {
                assert forall|i0: int, j0: int|
                    token_at(data@, i0, j0) && j0 <= i + 1 && valid_address(
                        data@.subrange(i0, j0),
                    ) implies exists|p: int|
                    0 <= p < r@.len() && #[trigger] r@[p]@ == data@.subrange(i0, j0) by {
                    if j0 == i + 1 {
                        assert(is_addr_char(data@[j0 - 1]));
                        assert(false);
                    }
                }
            }
            i = i + 1;
        } else {
            let start = i;
            let mut j = i + 1;
            let mut run = true;
            while run && j < n
                invariant
                    start < j <= n,
                    forall|k: int| start <= k < j ==> is_addr_char(#[trigger] data@[k]),
                    !run ==> j < n && !is_addr_char(data@[j as int]),
                decreases n - j + (if run {
                    1int
                } else {
                    0int
                }),
            {
                let cj = data.get_char(j);
                if addr_char(cj) {
                    j = j + 1;
                } else {
                    run = false;
                }
            }
            proof {
                assert(token_at(data@, start as int, j as int));
            }
            let tok = data.substring_char(start, j);
            proof {
                assert(tok@ == data@.subrange(start as int, j as int));
            }
            let ghost pre0 = r@;
            let tokvalid = is_valid_address(tok);
            if tokvalid {
                let owned = tok.to_owned();
                if !contains_string(&r, &owned) {
                    r.push(owned);
                    proof {
                        assert(r@.drop_last() =~= pre0);
                        assert(r@[r@.len() - 1]@ == data@.subrange(start as int, j as int));
                        assert forall|p: int|
                            0 <= p < r@.len() implies valid_address(#[trigger] r@[p]@) && exists|
                            i0: int,
                            j0: int,
                        |
                            token_at(data@, i0, j0) && data@.subrange(i0, j0) == r@[p]@ by {
                            if p == r@.len() - 1 {
                                assert(token_at(data@, start as int, j as int) && data@.subrange(
                                    start as int,
                                    j as int,
                                ) == r@[p]@);
                            } else {
                                assert(pre0[p] == r@[p]);
                            }
                        }
                    }
                } else {
                    proof {
                        let p = choose|p: int| 0 <= p < r@.len() && #[trigger] r@[p]@ == owned@;
                        assert(r@[p]@ == data@.subrange(start as int, j as int));
                    }
                }
                proof {
                    assert(exists|p: int|
                        0 <= p < r@.len() && #[trigger] r@[p]@ == data@.subrange(
                            start as int,
                            j as int,
                        ));
                }
            }
            proof {
                assert forall|i0: int, j0: int|
                    token_at(data@, i0, j0) && j0 <= j && valid_address(data@.subrange(i0, j0))
                        implies exists|p: int|
                    0 <= p < r@.len() && #[trigger] r@[p]@ == data@.subrange(i0, j0) by {
                    if j0 <= i {
                        let p = choose|p: int|
                            0 <= p < pre0.len() && #[trigger] pre0[p]@ == data@.subrange(i0, j0);
                        assert(r@[p] == pre0[p]);
                    } else {
                        if j0 < j {
                            assert(is_addr_char(data@[j0]));
                            assert(false);
                        } else {
                            if i0 < start {
                                assert(is_addr_char(data@[start as int - 1]));
                                assert(false);
                            } else if i0 > start {
                                assert(is_addr_char(data@[i0 - 1]));
                                assert(false);
                            }
                            assert(i0 == start && j0 == j);
                        }
                    }
                }
            }
            i = j;
        }
    }
    r
}

} // verus!
