//! The ferry codec: a self-delimiting text encoding of ferried data, used
//! for the header that crosses the network and for the local keyed store.
//! Every number is written as exactly twenty decimal digits, every string as
//! its length followed by its characters, so decoding needs no escaping and
//! consumes exactly what encoding produced. Decoding validates everything it
//! reads; malformed text is reported, never trusted.

use vstd::prelude::*;
use vstd::arithmetic::div_mod::lemma_fundamental_div_mod;
use vstd::string::*;

use crate::attrs::{attrs_has_key, AttrMap, AttrsModel};
use crate::ferry::{FdModel, FerriedData};
use crate::graph::{Edge, TraceGraph, Vertex, VertexModel};
use crate::property::{props_contain, props_model, PropModel, Property};

verus! {

pub open spec fn pow10(w: nat) -> int
    decreases w,
{
    if w == 0 {
        1
    } else {
        10 * pow10((w - 1) as nat)
    }
}

pub open spec fn digit_char(d: int) -> char {
    if d == 0 {
        '0'
    } else if d == 1 {
        '1'
    } else if d == 2 {
        '2'
    } else if d == 3 {
        '3'
    } else if d == 4 {
        '4'
    } else if d == 5 {
        '5'
    } else if d == 6 {
        '6'
    } else if d == 7 {
        '7'
    } else if d == 8 {
        '8'
    } else {
        '9'
    }
}

pub open spec fn char_digit(c: char) -> int {
    if c == '0' {
        0
    } else if c == '1' {
        1
    } else if c == '2' {
        2
    } else if c == '3' {
        3
    } else if c == '4' {
        4
    } else if c == '5' {
        5
    } else if c == '6' {
        6
    } else if c == '7' {
        7
    } else if c == '8' {
        8
    } else if c == '9' {
        9
    } else {
        -1
    }
}

pub open spec fn is_digit(c: char) -> bool {
    char_digit(c) >= 0
}

/// `n` written as exactly `w` decimal digits, most significant first
/// (`n` taken modulo ten to the `w`).
pub open spec fn enc_nat_w(n: int, w: nat) -> Seq<char>
    decreases w,
{
    if w == 0 {
        Seq::empty()
    } else {
        enc_nat_w(n / 10, (w - 1) as nat).push(digit_char(n % 10))
    }
}

/// Whether the `w` characters at `pos` are all digits.
pub open spec fn digits_ok(s: Seq<char>, pos: int, w: nat) -> bool
    decreases w,
{
    w == 0 || (is_digit(s[pos + w - 1]) && digits_ok(s, pos, (w - 1) as nat))
}

/// The value of the `w` digits at `pos`.
pub open spec fn digits_val(s: Seq<char>, pos: int, w: nat) -> int
    decreases w,
{
    if w == 0 {
        0
    } else {
        digits_val(s, pos, (w - 1) as nat) * 10 + char_digit(s[pos + w - 1])
    }
}

/// Decoding a number: twenty digits whose value fits a `u64`.
pub open spec fn sdec_nat(s: Seq<char>, pos: int) -> Option<(int, int)> {
    if pos + 20 <= s.len() && digits_ok(s, pos, 20) && digits_val(
        s,
        pos,
        20,
    ) <= u64::MAX {
        Some((digits_val(s, pos, 20), pos + 20))
    } else {
        None
    }
}

pub proof fn lemma_pow10_20()
    ensures
        pow10(20) == 0x56bc75e2d63100000,
{
    reveal_with_fuel(pow10, 21);
}

pub proof fn lemma_enc_nat_len(n: int, w: nat)
    ensures
        enc_nat_w(n, w).len() == w,
    decreases w,
{
    if w > 0 {
        lemma_enc_nat_len(n / 10, (w - 1) as nat);
    }
}

/// Under `digits_ok`, every one of the `w` characters is a digit.
proof fn lemma_digits_ok_all(s: Seq<char>, pos: int, w: nat)
    requires
        digits_ok(s, pos, w),
    ensures
        forall|j: int| 0 <= j < w ==> is_digit(#[trigger] s[pos + j]),
    decreases w,
{
    if w > 0 {
        lemma_digits_ok_all(s, pos, (w - 1) as nat);
    }
}

/// Digit values only grow as more digits are read.
proof fn lemma_digits_val_mono(s: Seq<char>, pos: int, k: nat, w: nat)
    requires
        k <= w,
        digits_ok(s, pos, w),
    ensures
        0 <= digits_val(s, pos, k) <= digits_val(s, pos, w),
    decreases w,
{
    if w == k {
        lemma_digits_val_nonneg(s, pos, k);
    } else {
        lemma_digits_val_mono(s, pos, k, (w - 1) as nat);
        lemma_digits_val_nonneg(s, pos, (w - 1) as nat);
    }
}

proof fn lemma_digits_val_nonneg(s: Seq<char>, pos: int, w: nat)
    requires
        digits_ok(s, pos, w),
    ensures
        digits_val(s, pos, w) >= 0,
    decreases w,
{
    if w > 0 {
        lemma_digits_val_nonneg(s, pos, (w - 1) as nat);
    }
}

/// Reading back the `w` digits that `enc_nat_w` wrote yields the value that
/// was written, for values that fit in `w` digits.
proof fn lemma_rt_nat_w(t: Seq<char>, pos: int, n: int, w: nat)
    requires
        0 <= pos,
        pos + w <= t.len(),
        t.subrange(pos, pos + w) == enc_nat_w(n, w),
        0 <= n < pow10(w),
    ensures
        digits_ok(t, pos, w),
        digits_val(t, pos, w) == n,
    decreases w,
{
    if w == 0 {
        assert(n == 0);
    } else {
        let e = enc_nat_w(n, w);
        lemma_enc_nat_len(n, w);
        lemma_enc_nat_len(n / 10, (w - 1) as nat);
        assert(t.subrange(pos, pos + w)[w - 1] == t[pos + w - 1]);
        assert(e[w - 1] == digit_char(n % 10));
        assert(t[pos + w - 1] == digit_char(n % 10));
        assert(0 <= n % 10 < 10) by {
            lemma_fundamental_div_mod(n, 10);
        }
        assert(char_digit(digit_char(n % 10)) == n % 10);
        assert(t.subrange(pos, pos + w - 1) =~= enc_nat_w(n / 10, (w - 1) as nat)) by {
            assert(forall|i: int|
                0 <= i < w - 1 ==> #[trigger] t.subrange(pos, pos + w)[i] == t[pos + i]);
            assert(forall|i: int|
                0 <= i < w - 1 ==> #[trigger] e[i] == enc_nat_w(n / 10, (w - 1) as nat)[i]);
        }
        assert(0 <= n / 10 < pow10((w - 1) as nat)) by {
            lemma_fundamental_div_mod(n, 10);
            assert(pow10(w) == 10 * pow10((w - 1) as nat));
            assert(n < 10 * pow10((w - 1) as nat));
            assert(n / 10 < pow10((w - 1) as nat)) by (nonlinear_arith)
                requires
                    n >= 0,
                    n < 10 * pow10((w - 1) as nat),
                    pow10((w - 1) as nat) > 0,
            ;
            assert(pow10((w - 1) as nat) > 0) by {
                lemma_pow10_pos((w - 1) as nat);
            }
        }
        lemma_rt_nat_w(t, pos, n / 10, (w - 1) as nat);
        assert(digits_val(t, pos, w) == (n / 10) * 10 + n % 10);
        assert((n / 10) * 10 + n % 10 == n) by {
            lemma_fundamental_div_mod(n, 10);
        }
    }
}

proof fn lemma_pow10_pos(w: nat)
    ensures
        pow10(w) > 0,
    decreases w,
{
    if w > 0 {
        lemma_pow10_pos((w - 1) as nat);
    }
}

/// Reading back an encoded `u64` yields it.
pub proof fn lemma_rt_nat(t: Seq<char>, pos: int, n: int)
    requires
        0 <= pos,
        pos + 20 <= t.len(),
        t.subrange(pos, pos + 20) == enc_nat_w(n, 20),
        0 <= n <= u64::MAX,
    ensures
        sdec_nat(t, pos) == Some((n, pos + 20)),
{
    lemma_pow10_20();
    lemma_rt_nat_w(t, pos, n, 20);
}

/// The digit as a one-character string slice.
fn digit_str(d: u64) -> (r: &'static str)
    requires
        d < 10,
    ensures
        r@ == seq![digit_char(d as int)],
{
    proof {
        reveal_strlit("0");
        reveal_strlit("1");
        reveal_strlit("2");
        reveal_strlit("3");
        reveal_strlit("4");
        reveal_strlit("5");
        reveal_strlit("6");
        reveal_strlit("7");
        reveal_strlit("8");
        reveal_strlit("9");
    }
    let r = if d == 0 {
        "0"
    } else if d == 1 {
        "1"
    } else if d == 2 {
        "2"
    } else if d == 3 {
        "3"
    } else if d == 4 {
        "4"
    } else if d == 5 {
        "5"
    } else if d == 6 {
        "6"
    } else if d == 7 {
        "7"
    } else if d == 8 {
        "8"
    } else {
        "9"
    };
    proof {
        assert(r@ =~= seq![digit_char(d as int)]);
    }
    r
}

/// Appends `n` as exactly `w` digits.
fn encode_nat_w(out: &mut String, n: u64, w: u64)
    ensures
        final(out)@ == old(out)@ + enc_nat_w(n as int, w as nat),
    decreases w,
{
    if w == 0 {
        proof {
            assert(final(out)@ =~= old(out)@ + enc_nat_w(n as int, 0));
        }
    } else {
        encode_nat_w(out, n / 10, w - 1);
        let d = digit_str(n % 10);
        out.append(d);
        proof {
            assert(out@ =~= old(out)@ + enc_nat_w(n as int, w as nat));
        }
    }
}

/// Appends `n` in the codec's number form.
pub fn encode_nat(out: &mut String, n: u64)
    ensures
        final(out)@ == old(out)@ + enc_nat_w(n as int, 20),
{
    encode_nat_w(out, n, 20);
}

/// The value of a digit character, or nothing for any other character.
fn char_digit_exec(c: char) -> (r: Option<u64>)
    ensures
        match r {
            Some(d) => char_digit(c) == d && d < 10,
            None => char_digit(c) == -1,
        },
{
    if c == '0' {
        Some(0)
    } else if c == '1' {
        Some(1)
    } else if c == '2' {
        Some(2)
    } else if c == '3' {
        Some(3)
    } else if c == '4' {
        Some(4)
    } else if c == '5' {
        Some(5)
    } else if c == '6' {
        Some(6)
    } else if c == '7' {
        Some(7)
    } else if c == '8' {
        Some(8)
    } else if c == '9' {
        Some(9)
    } else {
        None
    }
}

/// Reads a number: twenty digits whose value fits a `u64`. Anything else —
/// text too short, a non-digit, a value past `u64::MAX` — is malformed.
pub fn decode_nat(s: &str, len: usize, pos: usize) -> (r: Option<(u64, usize)>)
    requires
        len == s@.len(),
        pos <= len,
    ensures
        match r {
            Some((n, p)) => sdec_nat(s@, pos as int) == Some((n as int, p as int)) && pos < p
                <= len,
            None => sdec_nat(s@, pos as int) is None,
        },
{
    if len - pos < 20 {
        return None;
    }
    let mut acc: u64 = 0;
    let mut k: usize = 0;
    while k < 20
        invariant
            k <= 20,
            len == s@.len(),
            pos + 20 <= len,
            digits_ok(s@, pos as int, k as nat),
            acc == digits_val(s@, pos as int, k as nat),
        decreases 20 - k,
    {
        let c = s.get_char(pos + k);
        match char_digit_exec(c) {
            None => {
                proof {
                    if digits_ok(s@, pos as int, 20) {
                        lemma_digits_ok_all(s@, pos as int, 20);
                    }
                }
                return None;
            },
            Some(d) => {
                let next = acc.checked_mul(10);
                match next {
                    None => {
                        proof {
                            lemma_overflow_means_too_big(s@, pos as int, (k + 1) as nat);
                        }
                        return None;
                    },
                    Some(m) => {
                        match m.checked_add(d) {
                            None => {
                                proof {
                                    lemma_overflow_means_too_big(s@, pos as int, (k + 1) as nat);
                                }
                                return None;
                            },
                            Some(a) => {
                                acc = a;
                            },
                        }
                    },
                }
            },
        }
        k += 1;
    }
    Some((acc, pos + 20))
}

/// A string field: its length, then its characters. Length-prefixing makes
/// the encoding self-delimiting with no escaping.
pub open spec fn enc_str_field(str: Seq<char>) -> Seq<char> {
    enc_nat_w(str.len() as int, 20) + str
}

/// Decoding a string field.
pub open spec fn sdec_str_field(s: Seq<char>, pos: int) -> Option<(Seq<char>, int)> {
    match sdec_nat(s, pos) {
        None => None,
        Some((n, p)) => if p + n <= s.len() {
            Some((s.subrange(p, p + n), p + n))
        } else {
            None
        },
    }
}

/// Splitting a decoded window: when the characters at `pos` are `a`
/// followed by `b`, each part stands in its own window.
pub proof fn lemma_split_concat(t: Seq<char>, pos: int, a: Seq<char>, b: Seq<char>)
    requires
        0 <= pos,
        pos + a.len() + b.len() <= t.len(),
        t.subrange(pos, pos + a.len() + b.len()) == a + b,
    ensures
        t.subrange(pos, pos + a.len()) == a,
        t.subrange(pos + a.len(), pos + a.len() + b.len()) == b,
{
    let e = a + b;
    let al = a.len() as int;
    let l = a.len() + b.len();
    assert forall|i: int| 0 <= i < a.len() implies #[trigger] a[i] == t[pos + i] by {
        assert(e[i] == a[i]);
        assert(t.subrange(pos, pos + l)[i] == t[pos + i]);
    }
    assert(t.subrange(pos, pos + al) =~= a);
    assert forall|i: int| 0 <= i < b.len() implies #[trigger] b[i] == t[pos + al + i] by {
        assert(e[al + i] == b[i]);
        assert(t.subrange(pos, pos + l)[al + i] == t[pos + (al + i)]);
    }
    assert(t.subrange(pos + al, pos + l) =~= b);
}

/// Reading back an encoded string field yields it.
pub proof fn lemma_rt_str(t: Seq<char>, pos: int, str: Seq<char>)
    requires
        0 <= pos,
        pos + 20 + str.len() <= t.len(),
        t.subrange(pos, pos + 20 + str.len()) == enc_str_field(str),
        str.len() <= u64::MAX,
    ensures
        sdec_str_field(t, pos) == Some((str, pos + 20 + str.len())),
{
    let w = enc_nat_w(str.len() as int, 20);
    lemma_enc_nat_len(str.len() as int, 20);
    lemma_split_concat(t, pos, w, str);
    lemma_rt_nat(t, pos, str.len() as int);
}

/// One attribute entry: key, then value.
pub open spec fn enc_attr_entry(e: (u64, Seq<char>)) -> Seq<char> {
    enc_nat_w(e.0 as int, 20) + enc_str_field(e.1)
}

/// The entries of an attribute map, in order.
pub open spec fn enc_attr_list(m: AttrsModel) -> Seq<char>
    decreases m.len(),
{
    if m.len() == 0 {
        Seq::empty()
    } else {
        enc_attr_entry(m[0]) + enc_attr_list(m.drop_first())
    }
}

/// An attribute map: its size, then its entries in order.
pub open spec fn enc_attrs(m: AttrsModel) -> Seq<char> {
    enc_nat_w(m.len() as int, 20) + enc_attr_list(m)
}

/// A vertex: its label, then its attributes.
pub open spec fn enc_vertex(v: VertexModel) -> Seq<char> {
    enc_str_field(v.0) + enc_attrs(v.1)
}

/// The vertices of a graph, in order.
pub open spec fn enc_vertex_list(ns: Seq<VertexModel>) -> Seq<char>
    decreases ns.len(),
{
    if ns.len() == 0 {
        Seq::empty()
    } else {
        enc_vertex(ns[0]) + enc_vertex_list(ns.drop_first())
    }
}

/// An edge: source index, then target index.
pub open spec fn enc_edge(e: Edge) -> Seq<char> {
    enc_nat_w(e.src as int, 20) + enc_nat_w(e.dst as int, 20)
}

/// The edges of a graph, in order.
pub open spec fn enc_edge_list(es: Seq<Edge>) -> Seq<char>
    decreases es.len(),
{
    if es.len() == 0 {
        Seq::empty()
    } else {
        enc_edge(es[0]) + enc_edge_list(es.drop_first())
    }
}

/// A pending property: owner, id, value.
pub open spec fn enc_prop(p: PropModel) -> Seq<char> {
    enc_str_field(p.0) + enc_nat_w(p.1 as int, 20) + enc_str_field(p.2)
}

/// The pending properties, in order.
pub open spec fn enc_prop_list(ps: Seq<PropModel>) -> Seq<char>
    decreases ps.len(),
{
    if ps.len() == 0 {
        Seq::empty()
    } else {
        enc_prop(ps[0]) + enc_prop_list(ps.drop_first())
    }
}

/// A whole ferried-data value: vertex count and vertices, edge count and
/// edges, pending count and pending properties.
pub open spec fn spec_encode(m: FdModel) -> Seq<char> {
    enc_nat_w(m.0.0.len() as int, 20) + enc_vertex_list(m.0.0) + enc_nat_w(m.0.1.len() as int, 20)
        + enc_edge_list(m.0.1) + enc_nat_w(m.1.len() as int, 20) + enc_prop_list(m.1)
}

/// Decoding `k` attribute entries onto `acc`; a repeated key is malformed.
pub open spec fn sdec_attrs(s: Seq<char>, pos: int, k: nat, acc: AttrsModel) -> Option<
    (AttrsModel, int),
>
    decreases k,
{
    if k == 0 {
        Some((acc, pos))
    } else {
        match sdec_nat(s, pos) {
            None => None,
            Some((key, p1)) => match sdec_str_field(s, p1) {
                None => None,
                Some((v, p2)) => if attrs_has_key(acc, key as u64) {
                    None
                } else {
                    sdec_attrs(s, p2, (k - 1) as nat, acc.push((key as u64, v)))
                },
            },
        }
    }
}

/// Decoding `k` vertices onto `acc`.
pub open spec fn sdec_vertices(s: Seq<char>, pos: int, k: nat, acc: Seq<VertexModel>) -> Option<
    (Seq<VertexModel>, int),
>
    decreases k,
{
    if k == 0 {
        Some((acc, pos))
    } else {
        match sdec_str_field(s, pos) {
            None => None,
            Some((label, p1)) => match sdec_nat(s, p1) {
                None => None,
                Some((na, p2)) => match sdec_attrs(s, p2, na as nat, Seq::empty()) {
                    None => None,
                    Some((am, p3)) => sdec_vertices(s, p3, (k - 1) as nat, acc.push((label, am))),
                },
            },
        }
    }
}

/// Decoding `k` edges onto `acc`; an endpoint out of range is malformed.
pub open spec fn sdec_edges(s: Seq<char>, pos: int, k: nat, nv: int, acc: Seq<Edge>) -> Option<
    (Seq<Edge>, int),
>
    decreases k,
{
    if k == 0 {
        Some((acc, pos))
    } else {
        match sdec_nat(s, pos) {
            None => None,
            Some((src, p1)) => match sdec_nat(s, p1) {
                None => None,
                Some((dst, p2)) => if 0 <= src < nv && 0 <= dst < nv && src <= usize::MAX && dst
                    <= usize::MAX {
                    sdec_edges(
                        s,
                        p2,
                        (k - 1) as nat,
                        nv,
                        acc.push((Edge { src: src as usize, dst: dst as usize })),
                    )
                } else {
                    None
                },
            },
        }
    }
}

/// Decoding `k` pending properties onto `acc`; a repeated property is
/// malformed (the pending list is a set).
pub open spec fn sdec_props(s: Seq<char>, pos: int, k: nat, acc: Seq<PropModel>) -> Option<
    (Seq<PropModel>, int),
>
    decreases k,
{
    if k == 0 {
        Some((acc, pos))
    } else {
        match sdec_str_field(s, pos) {
            None => None,
            Some((owner, p1)) => match sdec_nat(s, p1) {
                None => None,
                Some((id, p2)) => match sdec_str_field(s, p2) {
                    None => None,
                    Some((value, p3)) => if props_contain(acc, (owner, id as u64, value)) {
                        None
                    } else {
                        sdec_props(s, p3, (k - 1) as nat, acc.push((owner, id as u64, value)))
                    },
                },
            },
        }
    }
}

/// Decoding a whole ferried-data value: every count is held to the input
/// length, every edge to the vertices, and the text must be consumed whole.
pub open spec fn spec_decode(s: Seq<char>) -> Option<FdModel> {
    match sdec_nat(s, 0) {
        None => None,
        Some((nv, p1)) => if nv > s.len() {
            None
        } else {
            match sdec_vertices(s, p1, nv as nat, Seq::empty()) {
                None => None,
                Some((ns, p2)) => match sdec_nat(s, p2) {
                    None => None,
                    Some((ne, p3)) => if ne > s.len() {
                        None
                    } else {
                        match sdec_edges(s, p3, ne as nat, ns.len() as int, Seq::empty()) {
                            None => None,
                            Some((es, p4)) => match sdec_nat(s, p4) {
                                None => None,
                                Some((np, p5)) => if np > s.len() {
                                    None
                                } else {
                                    match sdec_props(s, p5, np as nat, Seq::empty()) {
                                        None => None,
                                        Some((ps, p6)) => if p6 == s.len() {
                                            Some(((ns, es), ps))
                                        } else {
                                            None
                                        },
                                    }
                                },
                            },
                        }
                    },
                },
            }
        },
    }
}

/// A string that a length field can name.
pub open spec fn str_ok(s: Seq<char>) -> bool {
    s.len() <= u64::MAX
}

/// An attribute map whose size and values the encoding can carry.
pub open spec fn attrs_bounded(m: AttrsModel) -> bool {
    m.len() <= u64::MAX && forall|i: int| 0 <= i < m.len() ==> str_ok((#[trigger] m[i]).1)
}

/// A ferried-data model the encoding can carry: well formed, with every
/// count and string length within a `u64`. Every value actually held in
/// memory satisfies the size bounds.
pub open spec fn fd_bounded(m: FdModel) -> bool {
    &&& crate::graph::graph_wf(m.0)
    &&& crate::property::props_unique(m.1)
    &&& m.0.0.len() <= u64::MAX
    &&& m.0.1.len() <= u64::MAX
    &&& m.1.len() <= u64::MAX
    &&& forall|i: int|
        0 <= i < m.0.0.len() ==> str_ok((#[trigger] m.0.0[i]).0) && attrs_bounded(m.0.0[i].1)
    &&& forall|i: int| 0 <= i < m.1.len() ==> str_ok((#[trigger] m.1[i]).0) && str_ok(m.1[i].2)
}

pub proof fn lemma_enc_str_field_len(s: Seq<char>)
    ensures
        enc_str_field(s).len() == 20 + s.len(),
{
    lemma_enc_nat_len(s.len() as int, 20);
}

pub proof fn lemma_attr_list_push(m: AttrsModel, x: (u64, Seq<char>))
    ensures
        enc_attr_list(m.push(x)) == enc_attr_list(m) + enc_attr_entry(x),
    decreases m.len(),
{
    if m.len() == 0 {
        assert(m.push(x).drop_first() =~= m);
        assert(m.push(x)[0] == x);
        assert(enc_attr_entry(x) + enc_attr_list(m) =~= enc_attr_list(m) + enc_attr_entry(x));
    } else {
        assert(m.push(x).drop_first() =~= m.drop_first().push(x));
        lemma_attr_list_push(m.drop_first(), x);
        assert(m.push(x)[0] == m[0]);
        assert(enc_attr_entry(m[0]) + (enc_attr_list(m.drop_first()) + enc_attr_entry(x)) =~= (
        enc_attr_entry(m[0]) + enc_attr_list(m.drop_first())) + enc_attr_entry(x));
    }
}

pub proof fn lemma_vertex_list_push(ns: Seq<VertexModel>, x: VertexModel)
    ensures
        enc_vertex_list(ns.push(x)) == enc_vertex_list(ns) + enc_vertex(x),
    decreases ns.len(),
{
    if ns.len() == 0 {
        assert(ns.push(x).drop_first() =~= ns);
        assert(ns.push(x)[0] == x);
        assert(enc_vertex(x) + enc_vertex_list(ns) =~= enc_vertex_list(ns) + enc_vertex(x));
    } else {
        assert(ns.push(x).drop_first() =~= ns.drop_first().push(x));
        lemma_vertex_list_push(ns.drop_first(), x);
        assert(ns.push(x)[0] == ns[0]);
        assert(enc_vertex(ns[0]) + (enc_vertex_list(ns.drop_first()) + enc_vertex(x)) =~= (
        enc_vertex(ns[0]) + enc_vertex_list(ns.drop_first())) + enc_vertex(x));
    }
}

pub proof fn lemma_edge_list_push(es: Seq<Edge>, x: Edge)
    ensures
        enc_edge_list(es.push(x)) == enc_edge_list(es) + enc_edge(x),
    decreases es.len(),
{
    if es.len() == 0 {
        assert(es.push(x).drop_first() =~= es);
        assert(es.push(x)[0] == x);
        assert(enc_edge(x) + enc_edge_list(es) =~= enc_edge_list(es) + enc_edge(x));
    } else {
        assert(es.push(x).drop_first() =~= es.drop_first().push(x));
        lemma_edge_list_push(es.drop_first(), x);
        assert(es.push(x)[0] == es[0]);
        assert(enc_edge(es[0]) + (enc_edge_list(es.drop_first()) + enc_edge(x)) =~= (enc_edge(
            es[0],
        ) + enc_edge_list(es.drop_first())) + enc_edge(x));
    }
}

pub proof fn lemma_prop_list_push(ps: Seq<PropModel>, x: PropModel)
    ensures
        enc_prop_list(ps.push(x)) == enc_prop_list(ps) + enc_prop(x),
    decreases ps.len(),
{
    if ps.len() == 0 {
        assert(ps.push(x).drop_first() =~= ps);
        assert(ps.push(x)[0] == x);
        assert(enc_prop(x) + enc_prop_list(ps) =~= enc_prop_list(ps) + enc_prop(x));
    } else {
        assert(ps.push(x).drop_first() =~= ps.drop_first().push(x));
        lemma_prop_list_push(ps.drop_first(), x);
        assert(ps.push(x)[0] == ps[0]);
        assert(enc_prop(ps[0]) + (enc_prop_list(ps.drop_first()) + enc_prop(x)) =~= (enc_prop(
            ps[0],
        ) + enc_prop_list(ps.drop_first())) + enc_prop(x));
    }
}

/// Every vertex takes at least one character, so the vertex count can never
/// exceed the text length.
proof fn lemma_vertex_list_len(ns: Seq<VertexModel>)
    ensures
        enc_vertex_list(ns).len() >= ns.len(),
    decreases ns.len(),
{
    if ns.len() > 0 {
        lemma_vertex_list_len(ns.drop_first());
        lemma_enc_str_field_len(ns[0].0);
    }
}

proof fn lemma_edge_list_len(es: Seq<Edge>)
    ensures
        enc_edge_list(es).len() >= es.len(),
    decreases es.len(),
{
    if es.len() > 0 {
        lemma_edge_list_len(es.drop_first());
        lemma_enc_nat_len(es[0].src as int, 20);
    }
}

proof fn lemma_prop_list_len(ps: Seq<PropModel>)
    ensures
        enc_prop_list(ps).len() >= ps.len(),
    decreases ps.len(),
{
    if ps.len() > 0 {
        lemma_prop_list_len(ps.drop_first());
        lemma_enc_str_field_len(ps[0].0);
    }
}

/// Reading back encoded attribute entries appends exactly them to what was
/// already read.
proof fn lemma_rt_attr_list(t: Seq<char>, pos: int, m: AttrsModel, acc: AttrsModel)
    requires
        0 <= pos,
        pos + enc_attr_list(m).len() <= t.len(),
        t.subrange(pos, pos + enc_attr_list(m).len() as int) == enc_attr_list(m),
        crate::attrs::attrs_wf(acc + m),
        attrs_bounded(m),
    ensures
        sdec_attrs(t, pos, m.len() as nat, acc) == Some(
            (acc + m, pos + enc_attr_list(m).len() as int),
        ),
    decreases m.len(),
{
    if m.len() == 0 {
        assert(acc + m =~= acc);
    } else {
        let e0 = m[0];
        let rest = m.drop_first();
        let key_enc = enc_nat_w(e0.0 as int, 20);
        let val_enc = enc_str_field(e0.1);
        let entry = enc_attr_entry(e0);
        let rest_enc = enc_attr_list(rest);
        lemma_enc_nat_len(e0.0 as int, 20);
        lemma_enc_str_field_len(e0.1);
        assert(enc_attr_list(m) == entry + rest_enc);
        lemma_split_concat(t, pos, entry, rest_enc);
        lemma_split_concat(t, pos, key_enc, val_enc);
        lemma_rt_nat(t, pos, e0.0 as int);
        assert(str_ok(e0.1));
        lemma_rt_str(t, pos + 20, e0.1);
        assert(!attrs_has_key(acc, e0.0)) by {
            if attrs_has_key(acc, e0.0) {
                let i = choose|i: int| 0 <= i < acc.len() && acc[i].0 == e0.0;
                assert((acc + m)[i].0 == e0.0);
                assert((acc + m)[acc.len() as int].0 == e0.0);
            }
        }
        assert(acc.push(e0) + rest =~= acc + m);
        assert(attrs_bounded(rest)) by {
            assert(forall|i: int| 0 <= i < rest.len() ==> rest[i] == m[i + 1]);
        }
        lemma_rt_attr_list(t, pos + entry.len(), rest, acc.push(e0));
        assert((e0.0 as int) as u64 == e0.0);
    }
}

/// Reading back encoded vertices appends exactly them to what was already
/// read.
proof fn lemma_rt_vertex_list(t: Seq<char>, pos: int, ns: Seq<VertexModel>, acc: Seq<VertexModel>)
    requires
        0 <= pos,
        pos + enc_vertex_list(ns).len() <= t.len(),
        t.subrange(pos, pos + enc_vertex_list(ns).len() as int) == enc_vertex_list(ns),
        forall|i: int|
            0 <= i < ns.len() ==> str_ok((#[trigger] ns[i]).0) && attrs_bounded(ns[i].1)
                && crate::attrs::attrs_wf(ns[i].1),
    ensures
        sdec_vertices(t, pos, ns.len() as nat, acc) == Some(
            (acc + ns, pos + enc_vertex_list(ns).len() as int),
        ),
    decreases ns.len(),
{
    if ns.len() == 0 {
        assert(acc + ns =~= acc);
    } else {
        let v0 = ns[0];
        let rest = ns.drop_first();
        let label_enc = enc_str_field(v0.0);
        let count_enc = enc_nat_w(v0.1.len() as int, 20);
        let entries_enc = enc_attr_list(v0.1);
        let vert_enc = enc_vertex(v0);
        let rest_enc = enc_vertex_list(rest);
        lemma_enc_str_field_len(v0.0);
        lemma_enc_nat_len(v0.1.len() as int, 20);
        assert(enc_vertex_list(ns) == vert_enc + rest_enc);
        lemma_split_concat(t, pos, vert_enc, rest_enc);
        assert(vert_enc =~= label_enc + (count_enc + entries_enc));
        assert(t.subrange(pos, pos + vert_enc.len() as int) == label_enc + (count_enc
            + entries_enc));
        lemma_split_concat(t, pos, label_enc, count_enc + entries_enc);
        lemma_split_concat(t, pos + label_enc.len(), count_enc, entries_enc);
        lemma_rt_str(t, pos, v0.0);
        lemma_rt_nat(t, pos + label_enc.len(), v0.1.len() as int);
        assert(Seq::<(u64, Seq<char>)>::empty() + v0.1 =~= v0.1);
        lemma_rt_attr_list(
            t,
            pos + label_enc.len() + 20,
            v0.1,
            Seq::<(u64, Seq<char>)>::empty(),
        );
        assert(acc.push((v0.0, v0.1)) + rest =~= acc + ns);
        assert(forall|i: int| 0 <= i < rest.len() ==> rest[i] == ns[i + 1]);
        lemma_rt_vertex_list(t, pos + vert_enc.len(), rest, acc.push(v0));
        assert(((v0.1.len() as int) as nat) == v0.1.len());
    }
}

/// Reading back encoded edges appends exactly them to what was already read,
/// when every endpoint is in range.
proof fn lemma_rt_edge_list(t: Seq<char>, pos: int, es: Seq<Edge>, acc: Seq<Edge>, nv: int)
    requires
        0 <= pos,
        pos + enc_edge_list(es).len() <= t.len(),
        t.subrange(pos, pos + enc_edge_list(es).len() as int) == enc_edge_list(es),
        forall|i: int| 0 <= i < es.len() ==> (#[trigger] es[i]).src < nv && es[i].dst < nv,
    ensures
        sdec_edges(t, pos, es.len() as nat, nv, acc) == Some(
            (acc + es, pos + enc_edge_list(es).len() as int),
        ),
    decreases es.len(),
{
    if es.len() == 0 {
        assert(acc + es =~= acc);
    } else {
        let e0 = es[0];
        let rest = es.drop_first();
        let src_enc = enc_nat_w(e0.src as int, 20);
        let dst_enc = enc_nat_w(e0.dst as int, 20);
        let edge_enc = enc_edge(e0);
        let rest_enc = enc_edge_list(rest);
        lemma_enc_nat_len(e0.src as int, 20);
        lemma_enc_nat_len(e0.dst as int, 20);
        assert(enc_edge_list(es) == edge_enc + rest_enc);
        lemma_split_concat(t, pos, edge_enc, rest_enc);
        lemma_split_concat(t, pos, src_enc, dst_enc);
        lemma_rt_nat(t, pos, e0.src as int);
        lemma_rt_nat(t, pos + 20, e0.dst as int);
        assert(acc.push(e0) + rest =~= acc + es);
        assert(forall|i: int| 0 <= i < rest.len() ==> rest[i] == es[i + 1]);
        lemma_rt_edge_list(t, pos + edge_enc.len(), rest, acc.push(e0), nv);
        assert((Edge { src: ((e0.src as int) as usize), dst: ((e0.dst as int) as usize) }) == e0);
    }
}

/// Reading back encoded pending properties appends exactly them to what was
/// already read, when the whole list is a set.
proof fn lemma_rt_prop_list(t: Seq<char>, pos: int, ps: Seq<PropModel>, acc: Seq<PropModel>)
    requires
        0 <= pos,
        pos + enc_prop_list(ps).len() <= t.len(),
        t.subrange(pos, pos + enc_prop_list(ps).len() as int) == enc_prop_list(ps),
        crate::property::props_unique(acc + ps),
        forall|i: int| 0 <= i < ps.len() ==> str_ok((#[trigger] ps[i]).0) && str_ok(ps[i].2),
    ensures
        sdec_props(t, pos, ps.len() as nat, acc) == Some(
            (acc + ps, pos + enc_prop_list(ps).len() as int),
        ),
    decreases ps.len(),
{
    if ps.len() == 0 {
        assert(acc + ps =~= acc);
    } else {
        let p0 = ps[0];
        let rest = ps.drop_first();
        let owner_enc = enc_str_field(p0.0);
        let id_enc = enc_nat_w(p0.1 as int, 20);
        let value_enc = enc_str_field(p0.2);
        let prop_enc = enc_prop(p0);
        let rest_enc = enc_prop_list(rest);
        lemma_enc_str_field_len(p0.0);
        lemma_enc_nat_len(p0.1 as int, 20);
        lemma_enc_str_field_len(p0.2);
        assert(enc_prop_list(ps) == prop_enc + rest_enc);
        lemma_split_concat(t, pos, prop_enc, rest_enc);
        assert(prop_enc =~= owner_enc + (id_enc + value_enc));
        assert(t.subrange(pos, pos + prop_enc.len() as int) == owner_enc + (id_enc + value_enc));
        lemma_split_concat(t, pos, owner_enc, id_enc + value_enc);
        lemma_split_concat(t, pos + owner_enc.len(), id_enc, value_enc);
        lemma_rt_str(t, pos, p0.0);
        lemma_rt_nat(t, pos + owner_enc.len(), p0.1 as int);
        lemma_rt_str(t, pos + owner_enc.len() + 20, p0.2);
        assert(!props_contain(acc, p0)) by {
            if props_contain(acc, p0) {
                let i = choose|i: int| 0 <= i < acc.len() && acc[i] == p0;
                assert((acc + ps)[i] == p0);
                assert((acc + ps)[acc.len() as int] == p0);
            }
        }
        assert(acc.push(p0) + rest =~= acc + ps);
        assert(forall|i: int| 0 <= i < rest.len() ==> rest[i] == ps[i + 1]);
        lemma_rt_prop_list(t, pos + prop_enc.len(), rest, acc.push(p0));
        assert((p0.0, (p0.1 as int) as u64, p0.2) == p0);
    }
}

/// Decoding what encoding produced yields the value that was encoded: the
/// codec round-trips on every well-formed, machine-representable value.
#[verifier::rlimit(80)]
pub proof fn lemma_codec_round_trip(m: FdModel)
    requires
        fd_bounded(m),
    ensures
        spec_decode(spec_encode(m)) == Some(m),
{
    let ns = m.0.0;
    let es = m.0.1;
    let ps = m.1;
    let a1 = enc_nat_w(ns.len() as int, 20);
    let a2 = enc_vertex_list(ns);
    let a3 = enc_nat_w(es.len() as int, 20);
    let a4 = enc_edge_list(es);
    let a5 = enc_nat_w(ps.len() as int, 20);
    let a6 = enc_prop_list(ps);
    let t = spec_encode(m);
    lemma_enc_nat_len(ns.len() as int, 20);
    lemma_enc_nat_len(es.len() as int, 20);
    lemma_enc_nat_len(ps.len() as int, 20);
    lemma_vertex_list_len(ns);
    lemma_edge_list_len(es);
    lemma_prop_list_len(ps);
    assert(t =~= a1 + (a2 + (a3 + (a4 + (a5 + a6)))));
    assert(t.subrange(0, t.len() as int) =~= t);
    lemma_split_concat(t, 0, a1, a2 + (a3 + (a4 + (a5 + a6))));
    lemma_rt_nat(t, 0, ns.len() as int);
    lemma_split_concat(t, 20, a2, a3 + (a4 + (a5 + a6)));
    assert(Seq::<VertexModel>::empty() + ns =~= ns);
    lemma_rt_vertex_list(t, 20, ns, Seq::<VertexModel>::empty());
    let p2 = 20 + a2.len() as int;
    lemma_split_concat(t, p2, a3, a4 + (a5 + a6));
    lemma_rt_nat(t, p2, es.len() as int);
    lemma_split_concat(t, p2 + 20, a4, a5 + a6);
    assert(Seq::<Edge>::empty() + es =~= es);
    assert(forall|i: int|
        0 <= i < es.len() ==> (#[trigger] es[i]).src < ns.len() && es[i].dst < ns.len());
    lemma_rt_edge_list(t, p2 + 20, es, Seq::<Edge>::empty(), ns.len() as int);
    let p4 = p2 + 20 + a4.len() as int;
    lemma_split_concat(t, p4, a5, a6);
    lemma_rt_nat(t, p4, ps.len() as int);
    assert(Seq::<PropModel>::empty() + ps =~= ps);
    lemma_rt_prop_list(t, p4 + 20, ps, Seq::<PropModel>::empty());
    assert(p4 + 20 + a6.len() == t.len());
    assert(((ns.len() as int) as nat) == ns.len());
    assert(((es.len() as int) as nat) == es.len());
    assert(((ps.len() as int) as nat) == ps.len());
}

/// When a prefix of the digits already exceeds `u64::MAX`, the whole number
/// does, so decoding is right to give up.
proof fn lemma_overflow_means_too_big(s: Seq<char>, pos: int, k: nat)
    requires
        k <= 20,
        digits_ok(s, pos, k),
        digits_val(s, pos, k) > u64::MAX,
    ensures
        sdec_nat(s, pos) is None,
{
    if pos + 20 <= s.len() && digits_ok(s, pos, 20) {
        lemma_digits_val_mono(s, pos, k, 20);
    }
}

/// Appends a string field: its length, then its characters.
fn encode_str_field(out: &mut String, s: &str)
    ensures
        final(out)@ == old(out)@ + enc_str_field(s@),
{
    let n = s.unicode_len();
    encode_nat(out, n as u64);
    out.append(s);
    proof {
        assert(out@ =~= old(out)@ + enc_str_field(s@));
    }
}

/// Appends an attribute map: its size, then its entries.
fn encode_attrs(out: &mut String, m: &AttrMap)
    ensures
        final(out)@ == old(out)@ + enc_attrs(m.model()),
{
    let ghost mm = m.model();
    let n = m.len();
    encode_nat(out, n as u64);
    let ghost base = out@;
    let mut i: usize = 0;
    proof {
        assert(base =~= base + enc_attr_list(mm.take(0)));
    }
    while i < m.entries.len()
        invariant
            i <= m.entries.len(),
            mm == m.model(),
            out@ == base + enc_attr_list(mm.take(i as int)),
        decreases m.entries.len() - i,
    {
        proof {
            assert(mm[i as int] == (m.entries@[i as int].0, m.entries@[i as int].1@));
        }
        let key = m.entries[i].0;
        encode_nat(out, key);
        encode_str_field(out, m.entries[i].1.as_str());
        proof {
            lemma_attr_list_push(mm.take(i as int), mm[i as int]);
            assert(mm.take(i as int + 1) =~= mm.take(i as int).push(mm[i as int]));
            assert(out@ =~= base + enc_attr_list(mm.take(i as int + 1)));
        }
        i += 1;
    }
    proof {
        assert(mm.take(mm.len() as int) =~= mm);
        assert(out@ =~= old(out)@ + enc_attrs(mm));
    }
}

/// The models of a vertex list.
pub open spec fn vertices_model(nodes: Seq<Vertex>) -> Seq<VertexModel> {
    nodes.map_values(|v: Vertex| v.model())
}

/// Appends the vertices, each as label then attributes.
fn encode_vertices(out: &mut String, nodes: &Vec<Vertex>)
    ensures
        final(out)@ == old(out)@ + enc_vertex_list(vertices_model(nodes@)),
{
    let ghost nm = vertices_model(nodes@);
    let ghost base = out@;
    let mut i: usize = 0;
    proof {
        assert(base =~= base + enc_vertex_list(nm.take(0)));
    }
    while i < nodes.len()
        invariant
            i <= nodes.len(),
            nm == vertices_model(nodes@),
            out@ == base + enc_vertex_list(nm.take(i as int)),
        decreases nodes.len() - i,
    {
        proof {
            assert(nm[i as int] == nodes@[i as int].model());
        }
        encode_str_field(out, nodes[i].label.as_str());
        encode_attrs(out, &nodes[i].attrs);
        proof {
            lemma_vertex_list_push(nm.take(i as int), nm[i as int]);
            assert(nm.take(i as int + 1) =~= nm.take(i as int).push(nm[i as int]));
            assert(out@ =~= base + enc_vertex_list(nm.take(i as int + 1)));
        }
        i += 1;
    }
    proof {
        assert(nm.take(nm.len() as int) =~= nm);
    }
}

/// Appends the edges, each as source then target.
fn encode_edges(out: &mut String, edges: &Vec<Edge>)
    ensures
        final(out)@ == old(out)@ + enc_edge_list(edges@),
{
    let ghost em = edges@;
    let ghost base = out@;
    let mut i: usize = 0;
    proof {
        assert(base =~= base + enc_edge_list(em.take(0)));
    }
    while i < edges.len()
        invariant
            i <= edges.len(),
            em == edges@,
            out@ == base + enc_edge_list(em.take(i as int)),
        decreases edges.len() - i,
    {
        encode_nat(out, edges[i].src as u64);
        encode_nat(out, edges[i].dst as u64);
        proof {
            lemma_edge_list_push(em.take(i as int), em[i as int]);
            assert(em.take(i as int + 1) =~= em.take(i as int).push(em[i as int]));
            assert(out@ =~= base + enc_edge_list(em.take(i as int + 1)));
        }
        i += 1;
    }
    proof {
        assert(em.take(em.len() as int) =~= em);
    }
}

/// Appends the pending properties, each as owner, id, value.
fn encode_props(out: &mut String, props: &Vec<Property>)
    ensures
        final(out)@ == old(out)@ + enc_prop_list(props_model(props@)),
{
    let ghost pm = props_model(props@);
    let ghost base = out@;
    let mut i: usize = 0;
    proof {
        assert(base =~= base + enc_prop_list(pm.take(0)));
    }
    while i < props.len()
        invariant
            i <= props.len(),
            pm == props_model(props@),
            out@ == base + enc_prop_list(pm.take(i as int)),
        decreases props.len() - i,
    {
        proof {
            assert(pm[i as int] == props@[i as int].model());
        }
        encode_str_field(out, props[i].owner.as_str());
        encode_nat(out, props[i].id);
        encode_str_field(out, props[i].value.as_str());
        proof {
            lemma_prop_list_push(pm.take(i as int), pm[i as int]);
            assert(pm.take(i as int + 1) =~= pm.take(i as int).push(pm[i as int]));
            assert(out@ =~= base + enc_prop_list(pm.take(i as int + 1)));
        }
        i += 1;
    }
    proof {
        assert(pm.take(pm.len() as int) =~= pm);
    }
}

/// Encodes ferried data for transport in a header or the local keyed store.
pub fn encode_ferried_data(data: &FerriedData) -> (r: String)
    ensures
        r@ == spec_encode(data.model()),
{
    let mut out = String::new();
    encode_nat(&mut out, data.trace_graph.nodes.len() as u64);
    encode_vertices(&mut out, &data.trace_graph.nodes);
    encode_nat(&mut out, data.trace_graph.edges.len() as u64);
    encode_edges(&mut out, &data.trace_graph.edges);
    encode_nat(&mut out, data.unassigned_properties.len() as u64);
    encode_props(&mut out, &data.unassigned_properties);
    proof {
        assert(out@ =~= spec_encode(data.model()));
    }
    out
}

/// Serializes stored data for transport; the text form always exists.
pub fn data_to_str(stored_data: &FerriedData) -> (r: Option<String>)
    ensures
        r is Some,
        r matches Some(s) ==> s@ == spec_encode(stored_data.model()),
{
    Some(encode_ferried_data(stored_data))
}

/// Reads a string field: a length, then that many characters.
fn decode_str_field(s: &str, len: usize, pos: usize) -> (r: Option<(String, usize)>)
    requires
        len == s@.len(),
        pos <= len,
    ensures
        match r {
            Some((st, p)) => sdec_str_field(s@, pos as int) == Some((st@, p as int)) && pos < p
                <= len,
            None => sdec_str_field(s@, pos as int) is None,
        },
{
    match decode_nat(s, len, pos) {
        None => None,
        Some((n, p1)) => {
            if n > (len - p1) as u64 {
                return None;
            }
            let nn = n as usize;
            let sub = s.substring_char(p1, p1 + nn);
            Some((String::from_str(sub), p1 + nn))
        },
    }
}

/// Reads `count` attribute entries into a fresh map; a repeated key is
/// malformed.
fn decode_attrs(s: &str, len: usize, pos: usize, count: u64) -> (r: Option<(AttrMap, usize)>)
    requires
        len == s@.len(),
        pos <= len,
    ensures
        match r {
            Some((m, p)) => sdec_attrs(s@, pos as int, count as nat, Seq::empty()) == Some(
                (m.model(), p as int),
            ) && m.wf() && pos <= p <= len,
            None => sdec_attrs(s@, pos as int, count as nat, Seq::empty()) is None,
        },
{
    let mut acc = AttrMap::new();
    let mut cur: usize = pos;
    let mut k: u64 = 0;
    while k < count
        invariant
            k <= count,
            len == s@.len(),
            pos <= cur <= len,
            acc.wf(),
            sdec_attrs(s@, pos as int, count as nat, Seq::empty()) == sdec_attrs(
                s@,
                cur as int,
                (count - k) as nat,
                acc.model(),
            ),
        decreases count - k,
    {
        match decode_nat(s, len, cur) {
            None => {
                return None;
            },
            Some((key, p1)) => {
                match decode_str_field(s, len, p1) {
                    None => {
                        return None;
                    },
                    Some((v, p2)) => {
                        if acc.contains_key(key) {
                            return None;
                        }
                        let ghost before = acc.model();
                        acc.insert(key, v);
                        proof {
                            assert(acc.model() == before.push((key, v@)));
                        }
                        cur = p2;
                        k += 1;
                    },
                }
            },
        }
    }
    Some((acc, cur))
}

/// Reads `count` vertices into a fresh list.
fn decode_vertices(s: &str, len: usize, pos: usize, count: u64) -> (r: Option<(Vec<Vertex>, usize)>)
    requires
        len == s@.len(),
        pos <= len,
    ensures
        match r {
            Some((ns, p)) => sdec_vertices(s@, pos as int, count as nat, Seq::empty()) == Some(
                (vertices_model(ns@), p as int),
            ) && pos <= p <= len && forall|i: int|
                0 <= i < ns@.len() ==> crate::attrs::attrs_wf(
                    (#[trigger] vertices_model(ns@)[i]).1,
                ),
            None => sdec_vertices(s@, pos as int, count as nat, Seq::empty()) is None,
        },
{
    let mut acc: Vec<Vertex> = Vec::new();
    let mut cur: usize = pos;
    let mut k: u64 = 0;
    proof {
        assert(vertices_model(acc@) =~= Seq::<VertexModel>::empty());
    }
    while k < count
        invariant
            k <= count,
            len == s@.len(),
            pos <= cur <= len,
            forall|i: int|
                0 <= i < acc@.len() ==> crate::attrs::attrs_wf(
                    (#[trigger] vertices_model(acc@)[i]).1,
                ),
            sdec_vertices(s@, pos as int, count as nat, Seq::empty()) == sdec_vertices(
                s@,
                cur as int,
                (count - k) as nat,
                vertices_model(acc@),
            ),
        decreases count - k,
    {
        match decode_str_field(s, len, cur) {
            None => {
                return None;
            },
            Some((label, p1)) => {
                match decode_nat(s, len, p1) {
                    None => {
                        return None;
                    },
                    Some((na, p2)) => {
                        match decode_attrs(s, len, p2, na) {
                            None => {
                                return None;
                            },
                            Some((am, p3)) => {
                                let ghost before = vertices_model(acc@);
                                let ghost vm = (label@, am.model());
                                acc.push(Vertex { label, attrs: am });
                                proof {
                                    assert(vertices_model(acc@) =~= before.push(vm));
                                }
                                cur = p3;
                                k += 1;
                            },
                        }
                    },
                }
            },
        }
    }
    Some((acc, cur))
}

/// Reads `count` edges into a fresh list; an endpoint that names no vertex
/// is malformed.
fn decode_edges(s: &str, len: usize, pos: usize, count: u64, nv: usize) -> (r: Option<
    (Vec<Edge>, usize),
>)
    requires
        len == s@.len(),
        pos <= len,
    ensures
        match r {
            Some((es, p)) => sdec_edges(s@, pos as int, count as nat, nv as int, Seq::empty())
                == Some((es@, p as int)) && pos <= p <= len && forall|i: int|
                0 <= i < es@.len() ==> (#[trigger] es@[i]).src < nv && es@[i].dst < nv,
            None => sdec_edges(s@, pos as int, count as nat, nv as int, Seq::empty()) is None,
        },
{
    let mut acc: Vec<Edge> = Vec::new();
    let mut cur: usize = pos;
    let mut k: u64 = 0;
    proof {
        assert(acc@ =~= Seq::<Edge>::empty());
    }
    while k < count
        invariant
            k <= count,
            len == s@.len(),
            pos <= cur <= len,
            forall|i: int| 0 <= i < acc@.len() ==> (#[trigger] acc@[i]).src < nv && acc@[i].dst
                < nv,
            sdec_edges(s@, pos as int, count as nat, nv as int, Seq::empty()) == sdec_edges(
                s@,
                cur as int,
                (count - k) as nat,
                nv as int,
                acc@,
            ),
        decreases count - k,
    {
        match decode_nat(s, len, cur) {
            None => {
                return None;
            },
            Some((src, p1)) => {
                match decode_nat(s, len, p1) {
                    None => {
                        return None;
                    },
                    Some((dst, p2)) => {
                        if src >= nv as u64 || dst >= nv as u64 {
                            return None;
                        }
                        acc.push(Edge { src: src as usize, dst: dst as usize });
                        cur = p2;
                        k += 1;
                    },
                }
            },
        }
    }
    Some((acc, cur))
}

/// Reads `count` pending properties into a fresh list; a repeated property
/// is malformed.
fn decode_props(s: &str, len: usize, pos: usize, count: u64) -> (r: Option<(Vec<Property>, usize)>)
    requires
        len == s@.len(),
        pos <= len,
    ensures
        match r {
            Some((ps, p)) => sdec_props(s@, pos as int, count as nat, Seq::empty()) == Some(
                (props_model(ps@), p as int),
            ) && pos <= p <= len && crate::property::props_unique(props_model(ps@)),
            None => sdec_props(s@, pos as int, count as nat, Seq::empty()) is None,
        },
{
    let mut acc: Vec<Property> = Vec::new();
    let mut cur: usize = pos;
    let mut k: u64 = 0;
    proof {
        assert(props_model(acc@) =~= Seq::<PropModel>::empty());
    }
    while k < count
        invariant
            k <= count,
            len == s@.len(),
            pos <= cur <= len,
            crate::property::props_unique(props_model(acc@)),
            sdec_props(s@, pos as int, count as nat, Seq::empty()) == sdec_props(
                s@,
                cur as int,
                (count - k) as nat,
                props_model(acc@),
            ),
        decreases count - k,
    {
        match decode_str_field(s, len, cur) {
            None => {
                return None;
            },
            Some((owner, p1)) => {
                match decode_nat(s, len, p1) {
                    None => {
                        return None;
                    },
                    Some((id, p2)) => {
                        match decode_str_field(s, len, p2) {
                            None => {
                                return None;
                            },
                            Some((value, p3)) => {
                                let p = Property::new(owner, id, value);
                                if crate::property::props_contains(&acc, &p) {
                                    return None;
                                }
                                let ghost before = props_model(acc@);
                                let ghost pm = p.model();
                                acc.push(p);
                                proof {
                                    assert(props_model(acc@) =~= before.push(pm));
                                    assert forall|i: int, j: int|
                                        0 <= i < j < props_model(acc@).len() implies props_model(
                                        acc@,
                                    )[i] != props_model(acc@)[j] by {
                                        if j == before.len() {
                                            assert(props_model(acc@)[i] == before[i]);
                                            assert(!props_contain(before, pm));
                                        }
                                    }
                                }
                                cur = p3;
                                k += 1;
                            },
                        }
                    },
                }
            },
        }
    }
    Some((acc, cur))
}

/// Decodes ferried text. Malformed text — too short, a bad count, an edge
/// naming no vertex, trailing characters — is reported as nothing; the
/// caller treats that as "no prior state".
pub fn decode_ferried_data(s: &str) -> (r: Option<FerriedData>)
    ensures
        match r {
            Some(fd) => spec_decode(s@) == Some(fd.model()) && fd.wf(),
            None => spec_decode(s@) is None,
        },
{
    let len = s.unicode_len();
    let (nv, p1) = match decode_nat(s, len, 0) {
        None => {
            return None;
        },
        Some(x) => x,
    };
    if nv > len as u64 {
        return None;
    }
    let (nodes, p2) = match decode_vertices(s, len, p1, nv) {
        None => {
            return None;
        },
        Some(x) => x,
    };
    let (ne, p3) = match decode_nat(s, len, p2) {
        None => {
            return None;
        },
        Some(x) => x,
    };
    if ne > len as u64 {
        return None;
    }
    let (edges, p4) = match decode_edges(s, len, p3, ne, nodes.len()) {
        None => {
            return None;
        },
        Some(x) => x,
    };
    let (np, p5) = match decode_nat(s, len, p4) {
        None => {
            return None;
        },
        Some(x) => x,
    };
    if np > len as u64 {
        return None;
    }
    let (props, p6) = match decode_props(s, len, p5, np) {
        None => {
            return None;
        },
        Some(x) => x,
    };
    if p6 != len {
        return None;
    }
    let fd = FerriedData {
        trace_graph: TraceGraph { nodes, edges },
        unassigned_properties: props,
    };
    proof {
        assert(vertices_model(fd.trace_graph.nodes@) == fd.trace_graph.model().0);
        assert(spec_decode(s@) == Some(fd.model()));
        assert(crate::graph::graph_wf(fd.trace_graph.model()));
    }
    Some(fd)
}

} // verus!
