use vstd::prelude::*;

verus! {

/// A resolved UDP transport endpoint: a dotted-quad IPv4 address and a
/// port. Held as plain values so that contracts can speak of it; the
/// caller that owns the socket converts it to its socket-address type.
#[derive(Clone, Copy, Debug, PartialEq, Eq, Hash)]
pub struct Endpoint {
    pub ip0: u8,
    pub ip1: u8,
    pub ip2: u8,
    pub ip3: u8,
    pub port: u16,
}

/// ASCII '.'
pub const DOT: u8 = 46;

/// ASCII ':'
pub const COLON: u8 = 58;

pub open spec fn is_digit(c: u8) -> bool {
    48 <= c <= 57
}

pub open spec fn all_digits(s: Seq<u8>) -> bool {
    forall|i: int| 0 <= i < s.len() ==> is_digit(#[trigger] s[i])
}

/// The value of a decimal digit string (most significant digit first).
pub open spec fn dec_value(s: Seq<u8>) -> int
    decreases s.len(),
{
    if s.len() == 0 {
        0
    } else {
        dec_value(s.drop_last()) * 10 + (s.last() - 48)
    }
}

pub open spec fn pow10(n: nat) -> int
    decreases n,
{
    if n == 0 {
        1
    } else {
        10 * pow10((n - 1) as nat)
    }
}

proof fn lemma_pow10_pos(n: nat)
    ensures
        pow10(n) >= 1,
    decreases n,
{
    if n > 0 {
        lemma_pow10_pos((n - 1) as nat);
    }
}

proof fn lemma_pow10_mono(m: nat, n: nat)
    requires
        m <= n,
    ensures
        1 <= pow10(m) <= pow10(n),
    decreases n,
{
    lemma_pow10_pos(m);
    if m < n {
        lemma_pow10_mono(m, (n - 1) as nat);
    }
}

proof fn lemma_dec_value_bounds(s: Seq<u8>)
    requires
        all_digits(s),
    ensures
        0 <= dec_value(s) < pow10(s.len()),
    decreases s.len(),
{
    if s.len() > 0 {
        let d = s.drop_last();
        assert forall|i: int| 0 <= i < d.len() implies is_digit(#[trigger] d[i]) by {
            assert(d[i] == s[i]);
        }
        lemma_dec_value_bounds(d);
    }
}

/// Split at the first occurrence of `sep`, which is consumed.
pub open spec fn split_first(s: Seq<u8>, sep: u8) -> Option<(Seq<u8>, Seq<u8>)> {
    match s.index_of_first(sep) {
        Some(i) => Some((s.subrange(0, i), s.subrange(i + 1, s.len() as int))),
        None => None,
    }
}

/// A decimal IPv4 octet: one to three digits, value at most 255.
pub open spec fn is_octet(s: Seq<u8>) -> bool {
    1 <= s.len() <= 3 && all_digits(s) && dec_value(s) <= 255
}

/// A decimal port: one to five digits, value at most 65535.
pub open spec fn is_port(s: Seq<u8>) -> bool {
    1 <= s.len() <= 5 && all_digits(s) && dec_value(s) <= 65535
}

/// What a byte string must look like to denote an endpoint, and which one:
/// four octets separated by dots, a colon, and a port.
pub open spec fn spec_parse_endpoint(s: Seq<u8>) -> Option<Endpoint> {
    match split_first(s, DOT) {
        None => None,
        Some((o0, r0)) => match split_first(r0, DOT) {
            None => None,
            Some((o1, r1)) => match split_first(r1, DOT) {
                None => None,
                Some((o2, r2)) => match split_first(r2, COLON) {
                    None => None,
                    Some((o3, pt)) => if is_octet(o0) && is_octet(o1) && is_octet(o2) && is_octet(
                        o3,
                    ) && is_port(pt) {
                        Some(
                            Endpoint {
                                ip0: dec_value(o0) as u8,
                                ip1: dec_value(o1) as u8,
                                ip2: dec_value(o2) as u8,
                                ip3: dec_value(o3) as u8,
                                port: dec_value(pt) as u16,
                            },
                        )
                    } else {
                        None
                    },
                },
            },
        },
    }
}

/// First occurrence of `sep` in `s` at or after `from`.
fn find_byte(s: &[u8], from: usize, sep: u8) -> (r: Option<usize>)
    requires
        from <= s@.len(),
    ensures
        match r {
            Some(i) => from <= i < s@.len() && s@[i as int] == sep && (forall|j: int|
                from <= j < i ==> s@[j] != sep),
            None => forall|j: int| from <= j < s@.len() ==> s@[j] != sep,
        },
{
    let mut i = from;
    while i < s.len()
        invariant
            from <= i <= s@.len(),
            forall|j: int| from <= j < i ==> s@[j] != sep,
        decreases s@.len() - i,
    {
        if s[i] == sep {
            return Some(i);
        }
        i = i + 1;
    }
    None
}

/// On a suffix of `s`, splitting at the first `sep` yields the pieces of
/// `s` around the first occurrence of `sep` at or after `off`.
proof fn lemma_split_at(s: Seq<u8>, off: int, i: int, sep: u8)
    requires
        0 <= off <= i < s.len(),
        s[i] == sep,
        forall|j: int| off <= j < i ==> s[j] != sep,
    ensures
        split_first(s.subrange(off, s.len() as int), sep) == Some(
            (s.subrange(off, i), s.subrange(i + 1, s.len() as int)),
        ),
{
    let t = s.subrange(off, s.len() as int);
    t.index_of_first_ensures(sep);
    assert(t[i - off] == sep);
    match t.index_of_first(sep) {
        Some(k) => {
            assert(t[k] == sep);
            if k < i - off {
                assert(s[k + off] == sep);
                assert(false);
            }
            if i - off < k {
                assert(false);
            }
            assert(t.subrange(0, k) =~= s.subrange(off, i));
            assert(t.subrange(k + 1, t.len() as int) =~= s.subrange(i + 1, s.len() as int));
        },
        None => {
            assert(t.contains(sep)) by {
                assert(t[i - off] == sep);
            }
            assert(false);
        },
    }
}

/// On a suffix of `s` holding no `sep`, splitting at `sep` yields nothing.
proof fn lemma_split_none(s: Seq<u8>, off: int, sep: u8)
    requires
        0 <= off <= s.len(),
        forall|j: int| off <= j < s.len() ==> s[j] != sep,
    ensures
        split_first(s.subrange(off, s.len() as int), sep) is None,
{
    let t = s.subrange(off, s.len() as int);
    t.index_of_first_ensures(sep);
    match t.index_of_first(sep) {
        Some(k) => {
            assert(s[k + off] == sep);
            assert(false);
        },
        None => {},
    }
}

/// Value of the decimal digit run `s[a..b]`, or `None` if it is empty or
/// holds a non-digit.
fn parse_dec(s: &[u8], a: usize, b: usize) -> (r: Option<u32>)
    requires
        a <= b <= s@.len(),
        b - a <= 5,
    ensures
        ({
            let seg = s@.subrange(a as int, b as int);
            match r {
                Some(v) => seg.len() >= 1 && all_digits(seg) && v as int == dec_value(seg),
                None => !(seg.len() >= 1 && all_digits(seg)),
            }
        }),
{
    if b == a {
        return None;
    }
    let mut acc: u32 = 0;
    let mut i = a;
    while i < b
        invariant
            a <= i <= b <= s@.len(),
            b - a <= 5,
            all_digits(s@.subrange(a as int, i as int)),
            acc as int == dec_value(s@.subrange(a as int, i as int)),
        decreases b - i,
    {
        let c = s[i];
        if c < 48 || c > 57 {
            assert(!is_digit(s@.subrange(a as int, b as int)[i - a]));
            return None;
        }
        proof {
            let prev = s@.subrange(a as int, i as int);
            let next = s@.subrange(a as int, i + 1);
            assert(next.drop_last() =~= prev);
            assert(next.last() == s@[i as int]);
            lemma_dec_value_bounds(prev);
            lemma_pow10_mono(prev.len() as nat, 4);
            assert(pow10(0) == 1);
            assert(pow10(1) == 10);
            assert(pow10(2) == 100);
            assert(pow10(3) == 1000);
            assert(pow10(4) == 10000);
        }
        acc = acc * 10 + ((c - 48) as u32);
        i = i + 1;
    }
    Some(acc)
}

/// Parse a dotted "a.b.c.d:port" byte string into an endpoint, exactly as
/// `spec_parse_endpoint` reads it.
pub fn parse_endpoint(s: &[u8]) -> (r: Option<Endpoint>)
    ensures
        r == spec_parse_endpoint(s@),
{
    let n = s.len();
    proof {
        assert(s@.subrange(0, n as int) =~= s@);
    }
    let i0 = match find_byte(s, 0, DOT) {
        Some(i) => i,
        None => {
            proof {
                lemma_split_none(s@, 0, DOT);
            }
            return None;
        },
    };
    proof {
        lemma_split_at(s@, 0, i0 as int, DOT);
    }
    let i1 = match find_byte(s, i0 + 1, DOT) {
        Some(i) => i,
        None => {
            proof {
                lemma_split_none(s@, i0 + 1, DOT);
            }
            return None;
        },
    };
    proof {
        lemma_split_at(s@, i0 + 1, i1 as int, DOT);
    }
    let i2 = match find_byte(s, i1 + 1, DOT) {
        Some(i) => i,
        None => {
            proof {
                lemma_split_none(s@, i1 + 1, DOT);
            }
            return None;
        },
    };
    proof {
        lemma_split_at(s@, i1 + 1, i2 as int, DOT);
    }
    let i3 = match find_byte(s, i2 + 1, COLON) {
        Some(i) => i,
        None => {
            proof {
                lemma_split_none(s@, i2 + 1, COLON);
            }
            return None;
        },
    };
    proof {
        lemma_split_at(s@, i2 + 1, i3 as int, COLON);
    }
    let v0 = match parse_octet_at(s, 0, i0) {
        Some(v) => v,
        None => {
            return None;
        },
    };
    let v1 = match parse_octet_at(s, i0 + 1, i1) {
        Some(v) => v,
        None => {
            return None;
        },
    };
    let v2 = match parse_octet_at(s, i1 + 1, i2) {
        Some(v) => v,
        None => {
            return None;
        },
    };
    let v3 = match parse_octet_at(s, i2 + 1, i3) {
        Some(v) => v,
        None => {
            return None;
        },
    };
    if n - (i3 + 1) > 5 {
        return None;
    }
    let pv = match parse_dec(s, i3 + 1, n) {
        Some(v) => v,
        None => {
            return None;
        },
    };
    if pv > 65535 {
        return None;
    }
    Some(Endpoint { ip0: v0, ip1: v1, ip2: v2, ip3: v3, port: pv as u16 })
}

/// Value of the octet `s[a..b]`, or `None` if that run is not an octet.
fn parse_octet_at(s: &[u8], a: usize, b: usize) -> (r: Option<u8>)
    requires
        a <= b <= s@.len(),
    ensures
        ({
            let seg = s@.subrange(a as int, b as int);
            match r {
                Some(v) => is_octet(seg) && v as int == dec_value(seg),
                None => !is_octet(seg),
            }
        }),
{
    if b - a < 1 || b - a > 3 {
        return None;
    }
    match parse_dec(s, a, b) {
        Some(v) => {
            if v > 255 {
                None
            } else {
                Some(v as u8)
            }
        },
        None => None,
    }
}

} // verus!
