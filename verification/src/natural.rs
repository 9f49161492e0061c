//! Natural order of archive paths: runs of digits compare by value, other bytes
//! by their ASCII lowercase, and remaining ties are broken deterministically.
use vstd::prelude::*;
use crate::text::{chars_of, decimal, digit_char, first_in_class, lemma_first_in_class_at, lemma_join_split_on, split_on, split_on_exec, string_of, CharClass};

verus! {

/// The outcome of a three-way comparison.
#[derive(Debug, Clone, Copy, PartialEq, Eq, Structural)]
pub enum Order3 {
    Less,
    Equal,
    Greater,
}

pub open spec fn order_of(a: int, b: int) -> Order3 {
    if a < b {
        Order3::Less
    } else if a == b {
        Order3::Equal
    } else {
        Order3::Greater
    }
}

/// `Ordering::then`: the second comparison decides only a tie.
pub open spec fn then(o: Order3, p: Order3) -> Order3 {
    if o == Order3::Equal {
        p
    } else {
        o
    }
}

pub open spec fn flip(o: Order3) -> Order3 {
    match o {
        Order3::Less => Order3::Greater,
        Order3::Equal => Order3::Equal,
        Order3::Greater => Order3::Less,
    }
}

/// Lexicographic order of byte strings (the order of `str`).
pub open spec fn lex_order(a: Seq<u8>, b: Seq<u8>) -> Order3
    decreases a.len(),
{
    if a.len() == 0 {
        if b.len() == 0 {
            Order3::Equal
        } else {
            Order3::Less
        }
    } else if b.len() == 0 {
        Order3::Greater
    } else if a[0] != b[0] {
        order_of(a[0] as int, b[0] as int)
    } else {
        lex_order(a.drop_first(), b.drop_first())
    }
}

pub open spec fn is_digit_byte(b: u8) -> bool {
    48 <= b && b <= 57
}

/// The end of the run of ASCII digits that starts at `i`.
pub open spec fn digit_end(b: Seq<u8>, i: int) -> int
    decreases b.len() - i,
{
    if 0 <= i < b.len() && is_digit_byte(b[i]) {
        digit_end(b, i + 1)
    } else {
        i
    }
}

/// The index of the first byte from `k` on that is not `0`.
pub open spec fn zeros_end(d: Seq<u8>, k: int) -> int
    decreases d.len() - k,
{
    if 0 <= k < d.len() && d[k] == 48 {
        zeros_end(d, k + 1)
    } else {
        k
    }
}

/// A run of digits without its leading zeros, `0` when nothing else is left.
pub open spec fn strip_zeros(d: Seq<u8>) -> Seq<u8> {
    let z = zeros_end(d, 0);
    if z >= d.len() {
        seq![48u8]
    } else {
        d.subrange(z, d.len() as int)
    }
}

/// Two runs of digits: by value (length of the number, then its digits), then
/// the shorter run (fewer leading zeros) first.
pub open spec fn digits_order(ad: Seq<u8>, bd: Seq<u8>) -> Order3 {
    let an = strip_zeros(ad);
    let bn = strip_zeros(bd);
    then(order_of(an.len() as int, bn.len() as int), then(lex_order(an, bn), order_of(ad.len() as int, bd.len() as int)))
}

pub open spec fn lower_byte(b: u8) -> int {
    if 65 <= b && b <= 90 {
        b + 32
    } else {
        b as int
    }
}

pub proof fn lemma_digit_end(b: Seq<u8>, i: int)
    requires
        0 <= i <= b.len(),
    ensures
        i <= digit_end(b, i) <= b.len(),
        forall|k: int| i <= k < digit_end(b, i) ==> is_digit_byte(#[trigger] b[k]),
        digit_end(b, i) < b.len() ==> !is_digit_byte(b[digit_end(b, i)]),
    decreases b.len() - i,
{
    if i < b.len() && is_digit_byte(b[i]) {
        lemma_digit_end(b, i + 1);
    }
}

/// Natural order of two path components from byte `i` of `a` and byte `j` of `b`.
pub open spec fn component_order_from(a: Seq<u8>, b: Seq<u8>, i: int, j: int) -> Order3
    decreases (a.len() - i) + (b.len() - j),
{
    if 0 <= i < a.len() && 0 <= j < b.len() {
        if is_digit_byte(a[i]) && is_digit_byte(b[j]) {
            let ae = digit_end(a, i);
            let be = digit_end(b, j);
            proof {
                lemma_digit_end(a, i);
                lemma_digit_end(b, j);
            }
            let o = digits_order(a.subrange(i, ae), b.subrange(j, be));
            if o != Order3::Equal {
                o
            } else {
                component_order_from(a, b, ae, be)
            }
        } else {
            let o = order_of(lower_byte(a[i]), lower_byte(b[j]));
            if o != Order3::Equal {
                o
            } else {
                component_order_from(a, b, i + 1, j + 1)
            }
        }
    } else {
        then(order_of(a.len() as int, b.len() as int), lex_order(a, b))
    }
}

/// Natural order of two path components.
pub open spec fn component_order(a: Seq<u8>, b: Seq<u8>) -> Order3 {
    component_order_from(a, b, 0, 0)
}

/// Natural order of two paths split into components: the first component that
/// differs decides, else the path with fewer components comes first.
pub open spec fn components_order(ca: Seq<Seq<u8>>, cb: Seq<Seq<u8>>) -> Order3
    decreases ca.len(),
{
    if ca.len() == 0 || cb.len() == 0 {
        order_of(ca.len() as int, cb.len() as int)
    } else {
        let o = component_order(ca[0], cb[0]);
        if o != Order3::Equal {
            o
        } else {
            components_order(ca.drop_first(), cb.drop_first())
        }
    }
}

/// The UTF-8 bytes of each `/`-separated component of a path.
pub open spec fn path_components_bytes(p: Seq<char>) -> Seq<Seq<u8>> {
    split_on(p, '/').map_values(|c: Seq<char>| vstd::utf8::encode_utf8(c))
}

/// Natural order of two archive paths.
pub open spec fn natural_path_order_spec(a: Seq<char>, b: Seq<char>) -> Order3 {
    components_order(path_components_bytes(a), path_components_bytes(b))
}


fn order_of_usize(a: usize, b: usize) -> (r: Order3)
    ensures
        r == order_of(a as int, b as int),
{
    if a < b {
        Order3::Less
    } else if a == b {
        Order3::Equal
    } else {
        Order3::Greater
    }
}

fn then_exec(o: Order3, p: Order3) -> (r: Order3)
    ensures
        r == then(o, p),
{
    if o == Order3::Equal {
        p
    } else {
        o
    }
}

/// Lexicographic order of `a[ai..ae]` and `b[bi..be]`.
fn lex_order_range(a: &[u8], ai: usize, ae: usize, b: &[u8], bi: usize, be: usize) -> (r: Order3)
    requires
        ai <= ae <= a.len(),
        bi <= be <= b.len(),
    ensures
        r == lex_order(a@.subrange(ai as int, ae as int), b@.subrange(bi as int, be as int)),
{
    let ghost sa = a@.subrange(ai as int, ae as int);
    let ghost sb = b@.subrange(bi as int, be as int);
    let mut k: usize = 0;
    assert(sa.subrange(0, sa.len() as int) == sa);
    assert(sb.subrange(0, sb.len() as int) == sb);
    while k < ae - ai && k < be - bi
        invariant
            ai <= ae <= a.len(),
            bi <= be <= b.len(),
            sa == a@.subrange(ai as int, ae as int),
            sb == b@.subrange(bi as int, be as int),
            k <= ae - ai,
            k <= be - bi,
            lex_order(sa.subrange(k as int, sa.len() as int), sb.subrange(k as int, sb.len() as int))
                == lex_order(sa, sb),
        decreases ae - ai - k,
    {
        let x = a[ai + k];
        let y = b[bi + k];
        let ghost ra = sa.subrange(k as int, sa.len() as int);
        let ghost rb = sb.subrange(k as int, sb.len() as int);
        assert(ra[0] == x && rb[0] == y);
        if x != y {
            return if x < y {
                Order3::Less
            } else {
                Order3::Greater
            };
        }
        assert(ra.drop_first() == sa.subrange(k as int + 1, sa.len() as int));
        assert(rb.drop_first() == sb.subrange(k as int + 1, sb.len() as int));
        k += 1;
    }
    let ghost ra = sa.subrange(k as int, sa.len() as int);
    let ghost rb = sb.subrange(k as int, sb.len() as int);
    order_of_usize(ae - ai - k, be - bi - k)
}

fn digit_end_exec(b: &[u8], i: usize) -> (r: usize)
    requires
        i <= b.len(),
    ensures
        r == digit_end(b@, i as int),
{
    let mut e = i;
    while e < b.len() && 48 <= b[e] && b[e] <= 57
        invariant
            i <= e <= b.len(),
            digit_end(b@, e as int) == digit_end(b@, i as int),
        decreases b.len() - e,
    {
        e += 1;
    }
    e
}

fn zeros_end_exec(b: &[u8], from: usize, to: usize) -> (r: usize)
    requires
        from <= to <= b.len(),
    ensures
        r - from == zeros_end(b@.subrange(from as int, to as int), 0),
        from <= r <= to,
{
    let ghost d = b@.subrange(from as int, to as int);
    let mut z = from;
    while z < to && b[z] == 48
        invariant
            from <= z <= to <= b.len(),
            d == b@.subrange(from as int, to as int),
            zeros_end(d, z - from) == zeros_end(d, 0),
        decreases to - z,
    {
        z += 1;
    }
    z
}

/// Two runs of digits, `a[ai..ae]` and `b[bi..be]`, in natural order.
fn digits_order_exec(a: &[u8], ai: usize, ae: usize, b: &[u8], bi: usize, be: usize) -> (r: Order3)
    requires
        ai <= ae <= a.len(),
        bi <= be <= b.len(),
    ensures
        r == digits_order(a@.subrange(ai as int, ae as int), b@.subrange(bi as int, be as int)),
{
    let ghost ad = a@.subrange(ai as int, ae as int);
    let ghost bd = b@.subrange(bi as int, be as int);
    let za = zeros_end_exec(a, ai, ae);
    let zb = zeros_end_exec(b, bi, be);
    let zero: [u8; 1] = [48];
    assert(zero@ =~= seq![48u8]);
    let (sa, sa_from, sa_to): (&[u8], usize, usize) = if za >= ae {
        (&zero, 0, 1)
    } else {
        (a, za, ae)
    };
    let (sb, sb_from, sb_to): (&[u8], usize, usize) = if zb >= be {
        (&zero, 0, 1)
    } else {
        (b, zb, be)
    };
    proof {
        if za < ae {
            assert(sa@.subrange(sa_from as int, sa_to as int) =~= ad.subrange(za - ai, ad.len() as int));
        } else {
            assert(sa@.subrange(sa_from as int, sa_to as int) =~= seq![48u8]);
        }
        if zb < be {
            assert(sb@.subrange(sb_from as int, sb_to as int) =~= bd.subrange(zb - bi, bd.len() as int));
        } else {
            assert(sb@.subrange(sb_from as int, sb_to as int) =~= seq![48u8]);
        }
    }
    let by_len = order_of_usize(sa_to - sa_from, sb_to - sb_from);
    let by_digits = lex_order_range(sa, sa_from, sa_to, sb, sb_from, sb_to);
    let by_run = order_of_usize(ae - ai, be - bi);
    then_exec(by_len, then_exec(by_digits, by_run))
}

/// Natural order of two path components given as bytes.
pub fn natural_component_order(a: &[u8], b: &[u8]) -> (r: Order3)
    ensures
        r == component_order(a@, b@),
{
    let mut i: usize = 0;
    let mut j: usize = 0;
    while i < a.len() && j < b.len()
        invariant
            i <= a.len(),
            j <= b.len(),
            component_order_from(a@, b@, i as int, j as int) == component_order(a@, b@),
        decreases (a.len() - i) + (b.len() - j),
    {
        if 48 <= a[i] && a[i] <= 57 && 48 <= b[j] && b[j] <= 57 {
            let ae = digit_end_exec(a, i);
            let be = digit_end_exec(b, j);
            proof {
                lemma_digit_end(a@, i as int);
                lemma_digit_end(b@, j as int);
            }
            let o = digits_order_exec(a, i, ae, b, j, be);
            if o != Order3::Equal {
                return o;
            }
            i = ae;
            j = be;
        } else {
            let x = if 65 <= a[i] && a[i] <= 90 {
                a[i] + 32
            } else {
                a[i]
            };
            let y = if 65 <= b[j] && b[j] <= 90 {
                b[j] + 32
            } else {
                b[j]
            };
            if x != y {
                return if x < y {
                    Order3::Less
                } else {
                    Order3::Greater
                };
            }
            i += 1;
            j += 1;
        }
    }
    let by_len = order_of_usize(a.len(), b.len());
    let whole = lex_order_range(a, 0, a.len(), b, 0, b.len());
    assert(a@.subrange(0, a.len() as int) == a@);
    assert(b@.subrange(0, b.len() as int) == b@);
    then_exec(by_len, whole)
}

/// Natural order of two archive paths.
pub fn natural_path_order(left: &str, right: &str) -> (r: Order3)
    ensures
        r == natural_path_order_spec(left@, right@),
{
    let lv = chars_of(left);
    let rv = chars_of(right);
    let lc = split_on_exec(&lv, '/');
    let rc = split_on_exec(&rv, '/');
    let ghost ca = path_components_bytes(left@);
    let ghost cb = path_components_bytes(right@);
    let mut k: usize = 0;
    assert(ca.subrange(0, ca.len() as int) == ca);
    assert(cb.subrange(0, cb.len() as int) == cb);
    while k < lc.len() && k < rc.len()
        invariant
            k <= lc.len(),
            k <= rc.len(),
            lc.deep_view() == split_on(left@, '/'),
            rc.deep_view() == split_on(right@, '/'),
            ca == path_components_bytes(left@),
            cb == path_components_bytes(right@),
            ca.len() == lc.len(),
            cb.len() == rc.len(),
            components_order(ca.subrange(k as int, ca.len() as int), cb.subrange(k as int, cb.len() as int))
                == components_order(ca, cb),
        decreases lc.len() - k,
    {
        let ls = string_of(&lc[k]);
        let rs = string_of(&rc[k]);
        assert(lc.deep_view()[k as int] == lc[k as int]@);
        assert(rc.deep_view()[k as int] == rc[k as int]@);
        let o = natural_component_order(ls.as_str().as_bytes(), rs.as_str().as_bytes());
        let ghost ra = ca.subrange(k as int, ca.len() as int);
        let ghost rb = cb.subrange(k as int, cb.len() as int);
        assert(ra[0] == ca[k as int] && rb[0] == cb[k as int]);
        if o != Order3::Equal {
            return o;
        }
        assert(ra.drop_first() == ca.subrange(k as int + 1, ca.len() as int));
        assert(rb.drop_first() == cb.subrange(k as int + 1, cb.len() as int));
        k += 1;
    }
    order_of_usize(lc.len() - k, rc.len() - k)
}


// ---------------------------------------------------------------------------
// Laws of the natural order.
// ---------------------------------------------------------------------------

proof fn lemma_lex_antisym(a: Seq<u8>, b: Seq<u8>)
    ensures
        lex_order(a, b) == flip(lex_order(b, a)),
        lex_order(a, b) == Order3::Equal <==> a == b,
    decreases a.len(),
{
    if a.len() > 0 && b.len() > 0 && a[0] == b[0] {
        lemma_lex_antisym(a.drop_first(), b.drop_first());
        if a.drop_first() == b.drop_first() {
            assert(a =~= seq![a[0]] + a.drop_first());
            assert(b =~= seq![b[0]] + b.drop_first());
        }
    }
    if a.len() == 0 && b.len() == 0 {
        assert(a =~= b);
    }
}

proof fn lemma_digits_antisym(ad: Seq<u8>, bd: Seq<u8>)
    ensures
        digits_order(ad, bd) == flip(digits_order(bd, ad)),
{
    lemma_lex_antisym(strip_zeros(ad), strip_zeros(bd));
}

proof fn lemma_component_antisym_from(a: Seq<u8>, b: Seq<u8>, i: int, j: int)
    ensures
        component_order_from(a, b, i, j) == flip(component_order_from(b, a, j, i)),
    decreases (a.len() - i) + (b.len() - j),
{
    if 0 <= i < a.len() && 0 <= j < b.len() {
        if is_digit_byte(a[i]) && is_digit_byte(b[j]) {
            lemma_digit_end(a, i);
            lemma_digit_end(b, j);
            lemma_digits_antisym(a.subrange(i, digit_end(a, i)), b.subrange(j, digit_end(b, j)));
            lemma_component_antisym_from(a, b, digit_end(a, i), digit_end(b, j));
        } else {
            lemma_component_antisym_from(a, b, i + 1, j + 1);
        }
    } else {
        lemma_lex_antisym(a, b);
    }
}

proof fn lemma_component_equal_from(a: Seq<u8>, b: Seq<u8>, i: int, j: int)
    ensures
        component_order_from(a, b, i, j) == Order3::Equal ==> a == b,
    decreases (a.len() - i) + (b.len() - j),
{
    if 0 <= i < a.len() && 0 <= j < b.len() {
        if is_digit_byte(a[i]) && is_digit_byte(b[j]) {
            lemma_digit_end(a, i);
            lemma_digit_end(b, j);
            lemma_component_equal_from(a, b, digit_end(a, i), digit_end(b, j));
        } else {
            lemma_component_equal_from(a, b, i + 1, j + 1);
        }
    } else {
        lemma_lex_antisym(a, b);
    }
}

proof fn lemma_component_reflexive_from(a: Seq<u8>, i: int)
    requires
        0 <= i <= a.len(),
    ensures
        component_order_from(a, a, i, i) == Order3::Equal,
    decreases a.len() - i,
{
    if i < a.len() {
        if is_digit_byte(a[i]) {
            lemma_digit_end(a, i);
            lemma_lex_antisym(strip_zeros(a.subrange(i, digit_end(a, i))), strip_zeros(a.subrange(i, digit_end(a, i))));
            lemma_component_reflexive_from(a, digit_end(a, i));
        } else {
            lemma_component_reflexive_from(a, i + 1);
        }
    } else {
        lemma_lex_antisym(a, a);
    }
}

proof fn lemma_components_order(ca: Seq<Seq<u8>>, cb: Seq<Seq<u8>>)
    ensures
        components_order(ca, cb) == flip(components_order(cb, ca)),
        components_order(ca, cb) == Order3::Equal <==> ca == cb,
    decreases ca.len(),
{
    if ca.len() > 0 && cb.len() > 0 {
        lemma_component_antisym_from(ca[0], cb[0], 0, 0);
        lemma_component_equal_from(ca[0], cb[0], 0, 0);
        lemma_component_reflexive_from(ca[0], 0);
        lemma_components_order(ca.drop_first(), cb.drop_first());
        if ca.drop_first() == cb.drop_first() && ca[0] == cb[0] {
            assert(ca =~= seq![ca[0]] + ca.drop_first());
            assert(cb =~= seq![cb[0]] + cb.drop_first());
        }
        if ca == cb {
            assert(ca.drop_first() == cb.drop_first());
        }
    } else if ca.len() == 0 && cb.len() == 0 {
        assert(ca =~= cb);
    }
}

proof fn lemma_components_bytes_injective(a: Seq<char>, b: Seq<char>)
    requires
        path_components_bytes(a) == path_components_bytes(b),
    ensures
        a == b,
{
    let sa = split_on(a, '/');
    let sb = split_on(b, '/');
    assert(sa.len() == path_components_bytes(a).len());
    assert forall|k: int| 0 <= k < sa.len() implies sa[k] == sb[k] by {
        assert(path_components_bytes(a)[k] == vstd::utf8::encode_utf8(sa[k]));
        assert(path_components_bytes(b)[k] == vstd::utf8::encode_utf8(sb[k]));
        vstd::utf8::encode_utf8_decode_utf8(sa[k]);
        vstd::utf8::encode_utf8_decode_utf8(sb[k]);
    }
    assert(sa =~= sb);
    lemma_join_split_on(a, '/');
    lemma_join_split_on(b, '/');
}

/// The natural order is antisymmetric: swapping the paths flips the outcome.
pub proof fn lemma_natural_order_antisymmetric(a: Seq<char>, b: Seq<char>)
    ensures
        natural_path_order_spec(a, b) == flip(natural_path_order_spec(b, a)),
{
    lemma_components_order(path_components_bytes(a), path_components_bytes(b));
}

/// Two paths tie in the natural order only when they are the same path, so
/// sorting by it never depends on the input order.
pub proof fn lemma_natural_order_ties_only_equal(a: Seq<char>, b: Seq<char>)
    ensures
        natural_path_order_spec(a, b) == Order3::Equal <==> a == b,
{
    lemma_components_order(path_components_bytes(a), path_components_bytes(b));
    if natural_path_order_spec(a, b) == Order3::Equal {
        lemma_components_bytes_injective(a, b);
    }
}

proof fn lemma_lex_trans(a: Seq<u8>, b: Seq<u8>, c: Seq<u8>)
    requires
        lex_order(a, b) == Order3::Less,
        lex_order(b, c) == Order3::Less,
    ensures
        lex_order(a, c) == Order3::Less,
    decreases a.len(),
{
    if a.len() > 0 && b.len() > 0 && c.len() > 0 && a[0] == b[0] && b[0] == c[0] {
        lemma_lex_trans(a.drop_first(), b.drop_first(), c.drop_first());
    }
}

/// The order at the end of a component: by length, then bytewise.
pub open spec fn whole_order(a: Seq<u8>, b: Seq<u8>) -> Order3 {
    then(order_of(a.len() as int, b.len() as int), lex_order(a, b))
}

proof fn lemma_whole_trans(a: Seq<u8>, b: Seq<u8>, c: Seq<u8>)
    requires
        whole_order(a, b) == Order3::Less,
        whole_order(b, c) == Order3::Less,
    ensures
        whole_order(a, c) == Order3::Less,
{
    lemma_lex_antisym(a, b);
    lemma_lex_antisym(b, c);
    if a.len() == b.len() && b.len() == c.len() {
        lemma_lex_trans(a, b, c);
    }
}

proof fn lemma_digits_trans(ad: Seq<u8>, bd: Seq<u8>, cd: Seq<u8>)
    requires
        digits_order(ad, bd) == Order3::Less,
        digits_order(bd, cd) == Order3::Less,
    ensures
        digits_order(ad, cd) == Order3::Less,
{
    let (an, bn, cn) = (strip_zeros(ad), strip_zeros(bd), strip_zeros(cd));
    lemma_lex_antisym(an, bn);
    lemma_lex_antisym(bn, cn);
    lemma_lex_antisym(an, cn);
    if an.len() == bn.len() && bn.len() == cn.len() && lex_order(an, bn) == Order3::Less
        && lex_order(bn, cn) == Order3::Less {
        lemma_lex_trans(an, bn, cn);
    }
}

/// A tie of two digit runs leaves the same run length and the same number, so
/// a third run compares with both alike.
proof fn lemma_digits_tie(ad: Seq<u8>, bd: Seq<u8>, cd: Seq<u8>)
    requires
        digits_order(ad, bd) == Order3::Equal,
    ensures
        ad.len() == bd.len(),
        digits_order(ad, cd) == digits_order(bd, cd),
        digits_order(cd, ad) == digits_order(cd, bd),
{
    lemma_lex_antisym(strip_zeros(ad), strip_zeros(bd));
}

/// Whether the natural order of two components, from the same byte of both, is
/// decided by the pair of runs or bytes that starts there.
spec fn both_digits(a: Seq<u8>, b: Seq<u8>, i: int) -> bool {
    is_digit_byte(a[i]) && is_digit_byte(b[i])
}

proof fn lemma_component_trans_from(a: Seq<u8>, b: Seq<u8>, c: Seq<u8>, i: int)
    requires
        0 <= i <= a.len(),
        i <= b.len(),
        i <= c.len(),
        component_order_from(a, b, i, i) == Order3::Less,
        component_order_from(b, c, i, i) == Order3::Less,
    ensures
        component_order_from(a, c, i, i) == Order3::Less,
    decreases a.len() - i,
{
    if i < a.len() && i < b.len() && i < c.len() {
        lemma_digit_end(a, i);
        lemma_digit_end(b, i);
        lemma_digit_end(c, i);
        let ra = a.subrange(i, digit_end(a, i));
        let rb = b.subrange(i, digit_end(b, i));
        let rc = c.subrange(i, digit_end(c, i));
        let (la, lb, lc) = (lower_byte(a[i]), lower_byte(b[i]), lower_byte(c[i]));
        let ab = if both_digits(a, b, i) { digits_order(ra, rb) } else { order_of(la, lb) };
        let bc = if both_digits(b, c, i) { digits_order(rb, rc) } else { order_of(lb, lc) };
        if ab == Order3::Equal && bc == Order3::Equal {
            if both_digits(a, b, i) {
                lemma_digits_tie(ra, rb, rc);
                lemma_digits_tie(rb, rc, ra);
                assert(both_digits(b, c, i));
                assert(digits_order(ra, rc) == Order3::Equal) by {
                    lemma_lex_antisym(strip_zeros(ra), strip_zeros(rb));
                    lemma_lex_antisym(strip_zeros(rb), strip_zeros(rc));
                    lemma_lex_antisym(strip_zeros(ra), strip_zeros(rc));
                }
                lemma_component_trans_from(a, b, c, digit_end(a, i));
            } else {
                assert(!both_digits(b, c, i));
                assert(!both_digits(a, c, i));
                lemma_component_trans_from(a, b, c, i + 1);
            }
        } else if ab == Order3::Equal {
            if both_digits(a, b, i) {
                lemma_digits_tie(ra, rb, rc);
            }
        } else if bc == Order3::Equal {
            if both_digits(b, c, i) {
                lemma_digits_tie(rb, rc, ra);
            }
        } else if both_digits(a, b, i) && both_digits(b, c, i) {
            lemma_digits_trans(ra, rb, rc);
        }
    } else if !(i < a.len() && i < b.len()) && !(i < b.len() && i < c.len()) {
        lemma_whole_trans(a, b, c);
    }
}

proof fn lemma_components_trans(ca: Seq<Seq<u8>>, cb: Seq<Seq<u8>>, cc: Seq<Seq<u8>>)
    requires
        components_order(ca, cb) == Order3::Less,
        components_order(cb, cc) == Order3::Less,
    ensures
        components_order(ca, cc) == Order3::Less,
    decreases ca.len(),
{
    if ca.len() > 0 && cb.len() > 0 && cc.len() > 0 {
        lemma_component_equal_from(ca[0], cb[0], 0, 0);
        lemma_component_equal_from(cb[0], cc[0], 0, 0);
        lemma_component_reflexive_from(ca[0], 0);
        lemma_component_reflexive_from(cb[0], 0);
        let ab = component_order(ca[0], cb[0]);
        let bc = component_order(cb[0], cc[0]);
        if ab == Order3::Equal && bc == Order3::Equal {
            lemma_components_trans(ca.drop_first(), cb.drop_first(), cc.drop_first());
        } else if ab == Order3::Less && bc == Order3::Less {
            lemma_component_trans_from(ca[0], cb[0], cc[0], 0);
        }
    }
}

/// The natural order is transitive: with antisymmetry and ties only between
/// equal paths, it is a total order, so sorting by it is well defined.
pub proof fn lemma_natural_order_transitive(a: Seq<char>, b: Seq<char>, c: Seq<char>)
    requires
        natural_path_order_spec(a, b) == Order3::Less,
        natural_path_order_spec(b, c) == Order3::Less,
    ensures
        natural_path_order_spec(a, c) == Order3::Less,
{
    lemma_components_trans(path_components_bytes(a), path_components_bytes(b), path_components_bytes(c));
}

/// The decimal digits of `n` as ASCII bytes, without leading zeros.
pub open spec fn decimal_bytes(n: nat) -> Seq<u8>
    decreases n,
{
    if n < 10 {
        seq![(48 + n) as u8]
    } else {
        decimal_bytes(n / 10).push((48 + n % 10) as u8)
    }
}

proof fn lemma_decimal_bytes(n: nat)
    ensures
        decimal_bytes(n).len() >= 1,
        n >= 10 ==> decimal_bytes(n).len() >= 2,
        forall|k: int| 0 <= k < decimal_bytes(n).len() ==> is_digit_byte(#[trigger] decimal_bytes(n)[k]),
        n >= 10 ==> decimal_bytes(n)[0] != 48,
        n < 10 ==> decimal_bytes(n) == seq![(48 + n) as u8],
    decreases n,
{
    if n >= 10 {
        lemma_decimal_bytes(n / 10);
        let d = decimal_bytes(n / 10);
        assert forall|k: int| 0 <= k < decimal_bytes(n).len() implies is_digit_byte(#[trigger] decimal_bytes(n)[k]) by {
            if k < d.len() {
                assert(decimal_bytes(n)[k] == d[k]);
            }
        }
        assert(decimal_bytes(n)[0] == d[0]);
    }
}

proof fn lemma_strip_decimal(n: nat)
    ensures
        strip_zeros(decimal_bytes(n)) == decimal_bytes(n),
{
    lemma_decimal_bytes(n);
    let d = decimal_bytes(n);
    if n >= 10 {
        assert(zeros_end(d, 0) == 0);
        assert(d.subrange(0, d.len() as int) =~= d);
    } else if n == 0 {
        assert(zeros_end(d, 1) == 1);
        assert(zeros_end(d, 0) == 1);
    } else {
        assert(zeros_end(d, 0) == 0);
        assert(d.subrange(0, d.len() as int) =~= d);
    }
}

proof fn lemma_lex_common_prefix(x: Seq<u8>, u: Seq<u8>, v: Seq<u8>)
    ensures
        lex_order(x + u, x + v) == lex_order(u, v),
    decreases x.len(),
{
    if x.len() > 0 {
        assert((x + u).drop_first() =~= x.drop_first() + u);
        assert((x + v).drop_first() =~= x.drop_first() + v);
        lemma_lex_common_prefix(x.drop_first(), u, v);
    } else {
        assert(x + u =~= u);
        assert(x + v =~= v);
    }
}

proof fn lemma_lex_decided_prefix(x: Seq<u8>, y: Seq<u8>, u: Seq<u8>, v: Seq<u8>)
    requires
        x.len() == y.len(),
        lex_order(x, y) == Order3::Less,
    ensures
        lex_order(x + u, y + v) == Order3::Less,
    decreases x.len(),
{
    assert(x.len() > 0);
    if x[0] == y[0] {
        assert((x + u).drop_first() =~= x.drop_first() + u);
        assert((y + v).drop_first() =~= y.drop_first() + v);
        lemma_lex_decided_prefix(x.drop_first(), y.drop_first(), u, v);
    }
}

/// A smaller number has no more digits, and with as many digits it is
/// bytewise smaller.
proof fn lemma_decimal_order(a: nat, b: nat)
    requires
        a < b,
    ensures
        decimal_bytes(a).len() <= decimal_bytes(b).len(),
        decimal_bytes(a).len() == decimal_bytes(b).len() ==> lex_order(decimal_bytes(a), decimal_bytes(b))
            == Order3::Less,
    decreases b,
{
    lemma_decimal_bytes(a);
    lemma_decimal_bytes(b);
    if b >= 10 && a >= 10 {
        let (da, db) = (decimal_bytes(a / 10), decimal_bytes(b / 10));
        let (ca, cb) = ((48 + a % 10) as u8, (48 + b % 10) as u8);
        assert(decimal_bytes(a) =~= da + seq![ca]);
        assert(decimal_bytes(b) =~= db + seq![cb]);
        if a / 10 < b / 10 {
            lemma_decimal_order(a / 10, b / 10);
            if da.len() == db.len() {
                lemma_lex_decided_prefix(da, db, seq![ca], seq![cb]);
            }
        } else {
            assert(a / 10 == b / 10);
            lemma_lex_common_prefix(da, seq![ca], seq![cb]);
        }
    }
}

proof fn lemma_digits_smaller(a: nat, b: nat)
    requires
        a < b,
    ensures
        digits_order(decimal_bytes(a), decimal_bytes(b)) == Order3::Less,
{
    lemma_strip_decimal(a);
    lemma_strip_decimal(b);
    lemma_decimal_order(a, b);
}

/// Bytes that compare alike: the same ASCII lowercase byte by byte.
pub open spec fn same_ignoring_case(x: Seq<u8>, y: Seq<u8>) -> bool {
    x.len() == y.len() && forall|k: int| 0 <= k < x.len() ==> lower_byte(#[trigger] x[k]) == lower_byte(y[k])
}

proof fn lemma_digit_end_at(x: Seq<u8>, i: int, e: int)
    requires
        0 <= i <= e <= x.len(),
        forall|k: int| i <= k < e ==> is_digit_byte(#[trigger] x[k]),
        e < x.len() ==> !is_digit_byte(x[e]),
    ensures
        digit_end(x, i) == e,
    decreases e - i,
{
    if i < e {
        lemma_digit_end_at(x, i + 1, e);
    }
}

/// From byte `i` of two components whose first `n` bytes are the same ignoring
/// case, the natural order is decided where those bytes end, as long as they do
/// not end inside a run of digits.
proof fn lemma_prefix_ties(x: Seq<u8>, y: Seq<u8>, n: int, i: int)
    requires
        0 <= i <= n <= x.len(),
        n <= y.len(),
        same_ignoring_case(x.subrange(0, n), y.subrange(0, n)),
        n > 0 ==> !is_digit_byte(x[n - 1]),
    ensures
        component_order_from(x, y, i, i) == component_order_from(x, y, n, n),
    decreases n - i,
{
    if i < n {
        assert(lower_byte(x.subrange(0, n)[i]) == lower_byte(y.subrange(0, n)[i]));
        assert(x.subrange(0, n)[i] == x[i] && y.subrange(0, n)[i] == y[i]);
        if is_digit_byte(x[i]) {
            // The run ends inside the prefix, at the same place in both.
            let e = digit_end(x, i);
            lemma_digit_end(x, i);
            assert(e < n) by {
                if e >= n {
                    assert(is_digit_byte(x[n - 1]));
                }
            }
            assert forall|k: int| i <= k < e implies x[k] == y[k] by {
                assert(x.subrange(0, n)[k] == x[k] && y.subrange(0, n)[k] == y[k]);
                assert(lower_byte(x.subrange(0, n)[k]) == lower_byte(y.subrange(0, n)[k]));
                assert(is_digit_byte(x[k]));
            }
            assert(x.subrange(0, n)[e] == x[e] && y.subrange(0, n)[e] == y[e]);
            assert(lower_byte(x.subrange(0, n)[e]) == lower_byte(y.subrange(0, n)[e]));
            lemma_digit_end_at(y, i, e);
            assert(x.subrange(i, e) =~= y.subrange(i, e));
            lemma_lex_antisym(strip_zeros(x.subrange(i, e)), strip_zeros(x.subrange(i, e)));
            lemma_prefix_ties(x, y, n, e);
        } else {
            lemma_prefix_ties(x, y, n, i + 1);
        }
    }
}

/// Two components that agree, ignoring case, up to a number that is not glued
/// to other digits are ordered by that number: the smaller number comes first,
/// whatever follows.
pub proof fn lemma_smaller_number_first(pa: Seq<u8>, pb: Seq<u8>, a: nat, b: nat, sa: Seq<u8>, sb: Seq<u8>)
    requires
        same_ignoring_case(pa, pb),
        pa.len() > 0 ==> !is_digit_byte(pa.last()),
        a < b,
        sa.len() > 0 ==> !is_digit_byte(sa[0]),
        sb.len() > 0 ==> !is_digit_byte(sb[0]),
    ensures
        component_order(pa + decimal_bytes(a) + sa, pb + decimal_bytes(b) + sb) == Order3::Less,
{
    let (da, db) = (decimal_bytes(a), decimal_bytes(b));
    let x = pa + da + sa;
    let y = pb + db + sb;
    let n = pa.len() as int;
    lemma_decimal_bytes(a);
    lemma_decimal_bytes(b);
    assert(x.subrange(0, n) =~= pa);
    assert(y.subrange(0, n) =~= pb);
    if n > 0 {
        assert(x[n - 1] == pa.last());
    }
    lemma_prefix_ties(x, y, n, 0);
    assert forall|k: int| n <= k < n + da.len() implies is_digit_byte(#[trigger] x[k]) by {
        assert(x[k] == da[k - n]);
    }
    assert forall|k: int| n <= k < n + db.len() implies is_digit_byte(#[trigger] y[k]) by {
        assert(y[k] == db[k - n]);
    }
    if n + da.len() < x.len() {
        assert(x[n + da.len()] == sa[0]);
    }
    if n + db.len() < y.len() {
        assert(y[n + db.len()] == sb[0]);
    }
    lemma_digit_end_at(x, n, n + da.len());
    lemma_digit_end_at(y, n, n + db.len());
    assert(x.subrange(n, n + da.len()) =~= da);
    assert(y.subrange(n, n + db.len()) =~= db);
    assert(x[n] == da[0] && y[n] == db[0]);
    lemma_digits_smaller(a, b);
}


/// An ASCII decimal digit.
pub open spec fn is_digit_char(c: char) -> bool {
    '0' <= c && c <= '9'
}

/// The code of `c` after ASCII lowercasing.
pub open spec fn lower_char(c: char) -> int {
    if 'A' <= c && c <= 'Z' {
        c as int + 32
    } else {
        c as int
    }
}

/// Names that are equal ignoring ASCII case, as `str::eq_ignore_ascii_case` says.
pub open spec fn same_chars_ignoring_case(x: Seq<char>, y: Seq<char>) -> bool {
    x.len() == y.len() && forall|k: int| 0 <= k < x.len() ==> lower_char(#[trigger] x[k]) == lower_char(y[k])
}

proof fn lemma_encode_concat(x: Seq<char>, y: Seq<char>)
    ensures
        vstd::utf8::encode_utf8(x + y) == vstd::utf8::encode_utf8(x) + vstd::utf8::encode_utf8(y),
    decreases x.len(),
{
    if x.len() == 0 {
        assert(x + y =~= y);
        assert(vstd::utf8::encode_utf8(x) + vstd::utf8::encode_utf8(y) =~= vstd::utf8::encode_utf8(y));
    } else {
        assert((x + y).drop_first() =~= x.drop_first() + y);
        assert((x + y)[0] == x[0]);
        lemma_encode_concat(x.drop_first(), y);
        let e = vstd::utf8::encode_scalar(x[0] as u32);
        assert(e + (vstd::utf8::encode_utf8(x.drop_first()) + vstd::utf8::encode_utf8(y))
            =~= (e + vstd::utf8::encode_utf8(x.drop_first())) + vstd::utf8::encode_utf8(y));
    }
}

/// The UTF-8 bytes of one char: its code alone when it is ASCII, else two or
/// more bytes that are none of them ASCII.
proof fn lemma_encode_char(c: char)
    ensures
        (c as u32) <= 0x7F ==> vstd::utf8::encode_scalar(c as u32) == seq![(c as u32) as u8]
            && ((c as u32) as u8) as int == c as int,
        (c as u32) > 0x7F ==> vstd::utf8::encode_scalar(c as u32).len() >= 2 && forall|k: int|
            0 <= k < vstd::utf8::encode_scalar(c as u32).len() ==> #[trigger] vstd::utf8::encode_scalar(
                c as u32,
            )[k] >= 0x80,
{
    vstd::utf8::char_is_scalar(c);
    let v = c as u32;
    if vstd::utf8::has_width_1_encoding(v) {
        assert(vstd::utf8::leading_byte_width_1(v) == v as u8) by (bit_vector)
            requires
                v <= 0x7F,
        ;
    } else {
        assert(vstd::utf8::leading_byte_width_2(v) >= 0x80 && vstd::utf8::leading_byte_width_3(v) >= 0x80
            && vstd::utf8::leading_byte_width_4(v) >= 0x80 && vstd::utf8::last_continuation_byte(v) >= 0x80
            && vstd::utf8::second_last_continuation_byte(v) >= 0x80
            && vstd::utf8::third_last_continuation_byte(v) >= 0x80) by (bit_vector);
    }
}

proof fn lemma_encode_one(c: char)
    ensures
        vstd::utf8::encode_utf8(seq![c]) == vstd::utf8::encode_scalar(c as u32),
{
    let one = seq![c];
    assert(one[0] == c);
    assert(one.drop_first() =~= Seq::<char>::empty());
    assert(vstd::utf8::encode_utf8(one.drop_first()) =~= Seq::<u8>::empty());
    assert(vstd::utf8::encode_scalar(c as u32) + Seq::<u8>::empty() =~= vstd::utf8::encode_scalar(c as u32));
}

proof fn lemma_same_ignoring_case_concat(a: Seq<u8>, b: Seq<u8>, c: Seq<u8>, d: Seq<u8>)
    requires
        same_ignoring_case(a, c),
        same_ignoring_case(b, d),
    ensures
        same_ignoring_case(a + b, c + d),
{
    assert forall|k: int| 0 <= k < (a + b).len() implies lower_byte(#[trigger] (a + b)[k]) == lower_byte((c + d)[k]) by {
        if k >= a.len() {
            assert((a + b)[k] == b[k - a.len()] && (c + d)[k] == d[k - a.len()]);
        }
    }
}

/// Names that are equal ignoring ASCII case have UTF-8 bytes that are equal
/// ignoring ASCII case.
proof fn lemma_encode_same_ignoring_case(x: Seq<char>, y: Seq<char>)
    requires
        same_chars_ignoring_case(x, y),
    ensures
        same_ignoring_case(vstd::utf8::encode_utf8(x), vstd::utf8::encode_utf8(y)),
    decreases x.len(),
{
    if x.len() == 0 {
        assert(vstd::utf8::encode_utf8(y) =~= Seq::<u8>::empty());
    } else {
        assert forall|k: int| 0 <= k < x.drop_first().len() implies lower_char(#[trigger] x.drop_first()[k])
            == lower_char(y.drop_first()[k]) by {
            assert(lower_char(x[k + 1]) == lower_char(y[k + 1]));
        }
        lemma_encode_same_ignoring_case(x.drop_first(), y.drop_first());
        assert(lower_char(x[0]) == lower_char(y[0]));
        lemma_encode_char(x[0]);
        lemma_encode_char(y[0]);
        let (ex, ey) = (vstd::utf8::encode_scalar(x[0] as u32), vstd::utf8::encode_scalar(y[0] as u32));
        if (x[0] as u32) <= 0x7F && (y[0] as u32) <= 0x7F {
            assert(same_ignoring_case(ex, ey));
        } else {
            assert(x[0] as u32 == y[0] as u32);
            assert(same_ignoring_case(ex, ey));
        }
        lemma_same_ignoring_case_concat(
            ex,
            vstd::utf8::encode_utf8(x.drop_first()),
            ey,
            vstd::utf8::encode_utf8(y.drop_first()),
        );
    }
}

/// The decimal digits of a number, as UTF-8 bytes.
proof fn lemma_encode_decimal(n: nat)
    ensures
        vstd::utf8::encode_utf8(decimal(n)) == decimal_bytes(n),
    decreases n,
{
    let d = digit_char(n % 10);
    assert(d as u32 == 48 + n % 10);
    lemma_encode_char(d);
    lemma_encode_one(d);
    if n >= 10 {
        lemma_encode_decimal(n / 10);
        assert(decimal(n) =~= decimal(n / 10) + seq![d]);
        lemma_encode_concat(decimal(n / 10), seq![d]);
        assert(decimal_bytes(n) =~= decimal_bytes(n / 10) + seq![(48 + n % 10) as u8]);
    } else {
        assert(n % 10 == n);
    }
}

/// A name that does not end in a digit has UTF-8 bytes that do not end in one.
proof fn lemma_encode_last_not_digit(x: Seq<char>)
    requires
        x.len() > 0,
        !is_digit_char(x.last()),
    ensures
        vstd::utf8::encode_utf8(x).len() > 0,
        !is_digit_byte(vstd::utf8::encode_utf8(x).last()),
{
    let c = x.last();
    assert(x =~= x.drop_last() + seq![c]);
    lemma_encode_concat(x.drop_last(), seq![c]);
    lemma_encode_one(c);
    lemma_encode_char(c);
    let e = vstd::utf8::encode_scalar(c as u32);
    assert((vstd::utf8::encode_utf8(x.drop_last()) + e).last() == e.last());
}

/// A name that does not start with a digit has UTF-8 bytes that do not start
/// with one.
proof fn lemma_encode_first_not_digit(x: Seq<char>)
    requires
        x.len() > 0,
        !is_digit_char(x[0]),
    ensures
        vstd::utf8::encode_utf8(x).len() > 0,
        !is_digit_byte(vstd::utf8::encode_utf8(x)[0]),
{
    lemma_encode_char(x[0]);
    let e = vstd::utf8::encode_scalar(x[0] as u32);
    assert((e + vstd::utf8::encode_utf8(x.drop_first()))[0] == e[0]);
}

/// A path without `/` is one component.
proof fn lemma_one_component(p: Seq<char>)
    requires
        !p.contains('/'),
    ensures
        path_components_bytes(p) == seq![vstd::utf8::encode_utf8(p)],
{
    assert forall|k: int| 0 <= k < p.len() implies !crate::text::in_class(CharClass::Exactly('/'), #[trigger] p[k]) by {
        if p[k] == '/' {
            assert(p.contains('/'));
        }
    }
    lemma_first_in_class_at(p, CharClass::Exactly('/'), p.len() as int);
    assert(first_in_class(p, CharClass::Exactly('/')) == -1);
    assert(split_on(p, '/') == seq![p]);
    assert(path_components_bytes(p) =~= seq![vstd::utf8::encode_utf8(p)]);
}

/// Two names that agree, ignoring ASCII case, up to a number that no other
/// digit touches are in natural order by that number, whatever follows it:
/// `2.png` comes before `10.png`, and `page9.png` before `PAGE10.png`.
pub proof fn lemma_smaller_number_first_in_names(pa: Seq<char>, pb: Seq<char>, a: nat, b: nat, sa: Seq<char>, sb: Seq<char>)
    requires
        same_chars_ignoring_case(pa, pb),
        pa.len() > 0 ==> !is_digit_char(pa.last()),
        a < b,
        sa.len() > 0 ==> !is_digit_char(sa[0]),
        sb.len() > 0 ==> !is_digit_char(sb[0]),
    ensures
        component_order(
            vstd::utf8::encode_utf8(pa + decimal(a) + sa),
            vstd::utf8::encode_utf8(pb + decimal(b) + sb),
        ) == Order3::Less,
        !(pa + decimal(a) + sa).contains('/') && !(pb + decimal(b) + sb).contains('/') ==> natural_path_order_spec(
            pa + decimal(a) + sa,
            pb + decimal(b) + sb,
        ) == Order3::Less,
{
    let (x, y) = (pa + decimal(a) + sa, pb + decimal(b) + sb);
    let (epa, epb, esa, esb) = (
        vstd::utf8::encode_utf8(pa),
        vstd::utf8::encode_utf8(pb),
        vstd::utf8::encode_utf8(sa),
        vstd::utf8::encode_utf8(sb),
    );
    lemma_encode_concat(pa, decimal(a));
    lemma_encode_concat(pa + decimal(a), sa);
    lemma_encode_concat(pb, decimal(b));
    lemma_encode_concat(pb + decimal(b), sb);
    lemma_encode_decimal(a);
    lemma_encode_decimal(b);
    lemma_encode_same_ignoring_case(pa, pb);
    if pa.len() > 0 {
        lemma_encode_last_not_digit(pa);
    } else {
        assert(epa =~= Seq::<u8>::empty());
    }
    if sa.len() > 0 {
        lemma_encode_first_not_digit(sa);
    } else {
        assert(esa =~= Seq::<u8>::empty());
    }
    if sb.len() > 0 {
        lemma_encode_first_not_digit(sb);
    } else {
        assert(esb =~= Seq::<u8>::empty());
    }
    lemma_smaller_number_first(epa, epb, a, b, esa, esb);
    let (ex, ey) = (vstd::utf8::encode_utf8(x), vstd::utf8::encode_utf8(y));
    if !x.contains('/') && !y.contains('/') {
        lemma_one_component(x);
        lemma_one_component(y);
        assert(seq![ex].drop_first() =~= Seq::<Seq<u8>>::empty());
        assert(seq![ey].drop_first() =~= Seq::<Seq<u8>>::empty());
    }
}


// ---------------------------------------------------------------------------
// Comparing and sorting.
// ---------------------------------------------------------------------------

pub open spec fn std_ordering(o: Order3) -> std::cmp::Ordering {
    match o {
        Order3::Less => std::cmp::Ordering::Less,
        Order3::Equal => std::cmp::Ordering::Equal,
        Order3::Greater => std::cmp::Ordering::Greater,
    }
}

/// Compares two archive paths in natural order.
pub fn natural_path_cmp(left: &str, right: &str) -> (r: std::cmp::Ordering)
    ensures
        r == std_ordering(natural_path_order_spec(left@, right@)),
{
    match natural_path_order(left, right) {
        Order3::Less => std::cmp::Ordering::Less,
        Order3::Equal => std::cmp::Ordering::Equal,
        Order3::Greater => std::cmp::Ordering::Greater,
    }
}

/// Pages by natural order of their paths, then by their index in the archive.
#[verifier::opaque]
pub open spec fn key_order(a: (Seq<char>, usize), b: (Seq<char>, usize)) -> Order3 {
    then(natural_path_order_spec(a.0, b.0), order_of(a.1 as int, b.1 as int))
}

proof fn lemma_key_order_antisym(a: (Seq<char>, usize), b: (Seq<char>, usize))
    ensures
        key_order(a, b) == flip(key_order(b, a)),
{
    reveal(key_order);
    lemma_natural_order_antisymmetric(a.0, b.0);
}

/// Keys as paths and archive indices.
pub open spec fn keys_view(keys: Seq<(String, usize)>) -> Seq<(Seq<char>, usize)> {
    keys.map_values(|k: (String, usize)| (k.0@, k.1))
}

fn key_order_exec(a: &(String, usize), b: &(String, usize)) -> (r: Order3)
    ensures
        r == key_order((a.0@, a.1), (b.0@, b.1)),
{
    let o = natural_path_order(a.0.as_str(), b.0.as_str());
    proof {
        reveal(key_order);
    }
    then_exec(o, order_of_usize(a.1, b.1))
}

/// The key at position `t` of `order` is in natural order with the next one.
pub open spec fn in_order_at(keys: Seq<(Seq<char>, usize)>, order: Seq<usize>, t: int) -> bool {
    key_order(keys[order[t] as int], keys[order[t + 1] as int]) != Order3::Greater
}

/// `order` lists each position of `keys` once, and each key is in natural
/// order with the next.
pub open spec fn sorted_positions(keys: Seq<(Seq<char>, usize)>, order: Seq<usize>) -> bool {
    &&& order.len() == keys.len()
    &&& forall|t: int| 0 <= t < order.len() ==> (#[trigger] order[t]) < keys.len()
    &&& forall|s: int, t: int| 0 <= s < t < order.len() ==> #[trigger] order[s] != #[trigger] order[t]
    &&& forall|t: int| 0 <= t < order.len() - 1 ==> #[trigger] in_order_at(keys, order, t)
}

proof fn lemma_key_order_le_trans(a: (Seq<char>, usize), b: (Seq<char>, usize), c: (Seq<char>, usize))
    requires
        key_order(a, b) != Order3::Greater,
        key_order(b, c) != Order3::Greater,
    ensures
        key_order(a, c) != Order3::Greater,
{
    reveal(key_order);
    lemma_natural_order_ties_only_equal(a.0, b.0);
    lemma_natural_order_ties_only_equal(b.0, c.0);
    lemma_natural_order_ties_only_equal(a.0, c.0);
    if natural_path_order_spec(a.0, b.0) == Order3::Less && natural_path_order_spec(b.0, c.0) == Order3::Less {
        lemma_natural_order_transitive(a.0, b.0, c.0);
    }
}

/// Positions in natural order are sorted throughout: each key is in order with
/// every later one, not only with the next.
pub proof fn lemma_sorted_positions_in_order(keys: Seq<(Seq<char>, usize)>, order: Seq<usize>, s: int, t: int)
    requires
        sorted_positions(keys, order),
        0 <= s < t < order.len(),
    ensures
        key_order(keys[order[s] as int], keys[order[t] as int]) != Order3::Greater,
    decreases t - s,
{
    assert(in_order_at(keys, order, t - 1));
    if s < t - 1 {
        lemma_sorted_positions_in_order(keys, order, s, t - 1);
        lemma_key_order_le_trans(keys[order[s] as int], keys[order[t - 1] as int], keys[order[t] as int]);
    }
}

spec fn after_key(keys: Seq<(Seq<char>, usize)>, order: Seq<usize>, q: int, k: usize) -> bool {
    key_order(keys[order[q] as int], keys[k as int]) == Order3::Greater
}

proof fn lemma_insert_keeps_sorted(keys: Seq<(Seq<char>, usize)>, old_r: Seq<usize>, p: int, k: usize)
    requires
        0 <= p <= old_r.len(),
        old_r.len() == k,
        k < keys.len(),
        forall|t: int| 0 <= t < old_r.len() ==> (#[trigger] old_r[t]) < k,
        forall|s: int, t: int| 0 <= s < t < old_r.len() ==> #[trigger] old_r[s] != #[trigger] old_r[t],
        forall|t: int| 0 <= t < old_r.len() - 1 ==> #[trigger] in_order_at(keys, old_r, t),
        p > 0 ==> key_order(keys[old_r[p - 1] as int], keys[k as int]) != Order3::Greater,
        forall|q: int| p <= q < old_r.len() ==> #[trigger] after_key(keys, old_r, q, k),
    ensures
        ({
            let r = old_r.insert(p, k);
            &&& forall|t: int| 0 <= t < r.len() ==> (#[trigger] r[t]) < k + 1
            &&& forall|s: int, t: int| 0 <= s < t < r.len() ==> #[trigger] r[s] != #[trigger] r[t]
            &&& forall|t: int| 0 <= t < r.len() - 1 ==> #[trigger] in_order_at(keys, r, t)
        }),
{
    let r = old_r.insert(p, k);
    if p < old_r.len() {
        assert(after_key(keys, old_r, p, k));
        lemma_key_order_antisym(keys[old_r[p] as int], keys[k as int]);
    }
    assert forall|t: int| 0 <= t < r.len() implies (#[trigger] r[t]) < k + 1 by {
        if t < p {
            assert(r[t] == old_r[t]);
        } else if t > p {
            assert(r[t] == old_r[t - 1]);
        }
    }
    assert forall|t: int| 0 <= t < r.len() - 1 implies #[trigger] in_order_at(keys, r, t) by {
        if t < p - 1 {
            assert(r[t] == old_r[t] && r[t + 1] == old_r[t + 1]);
            assert(in_order_at(keys, old_r, t));
        } else if t == p - 1 {
            assert(r[t] == old_r[t] && r[t + 1] == k);
        } else if t == p {
            assert(r[t] == k && r[t + 1] == old_r[t]);
        } else {
            assert(r[t] == old_r[t - 1] && r[t + 1] == old_r[t]);
            assert(in_order_at(keys, old_r, t - 1));
        }
    }
    assert forall|s: int, t: int| 0 <= s < t < r.len() implies #[trigger] r[s] != #[trigger] r[t] by {
        if t < p {
            assert(r[s] == old_r[s] && r[t] == old_r[t]);
        } else if t == p {
            assert(r[s] == old_r[s]);
        } else if s < p {
            assert(r[s] == old_r[s] && r[t] == old_r[t - 1]);
        } else if s == p {
            assert(r[t] == old_r[t - 1]);
        } else {
            assert(r[s] == old_r[s - 1] && r[t] == old_r[t - 1]);
        }
    }
}

/// The positions of `keys` in natural order, by insertion (a stable sort).
pub fn natural_order_positions(keys: &Vec<(String, usize)>) -> (r: Vec<usize>)
    ensures
        sorted_positions(keys_view(keys@), r@),
{
    let ghost kv = keys_view(keys@);
    let mut r: Vec<usize> = Vec::new();
    let mut k: usize = 0;
    while k < keys.len()
        invariant
            k <= keys.len(),
            r.len() == k,
            forall|t: int| 0 <= t < r.len() ==> (#[trigger] r@[t]) < k,
            forall|s: int, t: int| 0 <= s < t < r.len() ==> #[trigger] r@[s] != #[trigger] r@[t],
            forall|t: int| 0 <= t < r.len() - 1 ==> #[trigger] in_order_at(kv, r@, t),
            kv == keys_view(keys@),
        decreases keys.len() - k,
    {
        let mut p = r.len();
        while p > 0 && key_order_exec(&keys[r[p - 1]], &keys[k]) == Order3::Greater
            invariant
                p <= r.len(),
                k < keys.len(),
                r.len() == k,
                forall|t: int| 0 <= t < r.len() ==> (#[trigger] r@[t]) < k,
                forall|q: int| p <= q < r.len() ==> #[trigger] after_key(kv, r@, q, k),
                kv == keys_view(keys@),
            decreases p,
        {
            assert(kv[r@[p - 1] as int] == (keys@[r@[p - 1] as int].0@, keys@[r@[p - 1] as int].1));
            assert(kv[k as int] == (keys@[k as int].0@, keys@[k as int].1));
            assert(after_key(kv, r@, p - 1, k));
            p -= 1;
        }
        let ghost old_r = r@;
        r.insert(p, k);
        proof {
            if p > 0 {
                assert(kv[old_r[p - 1] as int] == (keys@[old_r[p - 1] as int].0@, keys@[old_r[p - 1] as int].1));
                assert(kv[k as int] == (keys@[k as int].0@, keys@[k as int].1));
            }
            lemma_insert_keeps_sorted(kv, old_r, p as int, k);
        }
        k += 1;
    }
    r
}

} // verus!
