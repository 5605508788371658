use vstd::prelude::*;
use vstd::string::StrSliceExecFns;
use vstd::string::StringExecFns;

use crate::exchange::{exchange_views, Exchange, ExchangeView};

verus! {

// The transport blob for a conversation's exchanges: each string is written
// as its decimal character count, a ':', and then the characters themselves;
// each exchange contributes its query followed by its answer. The format
// round-trips exactly (`lemma_decode_encode`).

pub open spec fn digit_char(d: nat) -> char {
    if d == 0 {
        '0'
    } else if d == 1 {
        '1'
    } else if d == 2 {
        '2'
    } else if d == 3 {
        '3'
    } else if d == 4 {
        '4'
    } else if d == 5 {
        '5'
    } else if d == 6 {
        '6'
    } else if d == 7 {
        '7'
    } else if d == 8 {
        '8'
    } else {
        '9'
    }
}

pub open spec fn is_digit_char(c: char) -> bool {
    c == '0' || c == '1' || c == '2' || c == '3' || c == '4' || c == '5' || c == '6' || c == '7'
        || c == '8' || c == '9'
}

pub open spec fn digit_val(c: char) -> nat {
    if c == '0' {
        0
    } else if c == '1' {
        1
    } else if c == '2' {
        2
    } else if c == '3' {
        3
    } else if c == '4' {
        4
    } else if c == '5' {
        5
    } else if c == '6' {
        6
    } else if c == '7' {
        7
    } else if c == '8' {
        8
    } else {
        9
    }
}

/// The decimal rendering of a natural number, most significant digit first.
pub open spec fn digits(n: nat) -> Seq<char>
    decreases n,
{
    if n < 10 {
        seq![digit_char(n)]
    } else {
        digits(n / 10).push(digit_char(n % 10))
    }
}

pub open spec fn pow10(k: nat) -> nat
    decreases k,
{
    if k == 0 {
        1
    } else {
        10 * pow10((k - 1) as nat)
    }
}

/// Read decimal digits until a ':'; the accumulator carries digits already
/// read. Returns the value and the characters after the ':'.
pub open spec fn parse_nat(s: Seq<char>, acc: nat) -> Option<(nat, Seq<char>)>
    decreases s.len(),
{
    if s.len() == 0 {
        None
    } else if s[0] == ':' {
        Some((acc, s.drop_first()))
    } else if is_digit_char(s[0]) {
        parse_nat(s.drop_first(), acc * 10 + digit_val(s[0]))
    } else {
        None
    }
}

/// Read one length-prefixed string; returns its characters and the rest.
pub open spec fn parse_str(s: Seq<char>) -> Option<(Seq<char>, Seq<char>)> {
    match parse_nat(s, 0) {
        None => None,
        Some((n, rest)) => if rest.len() >= n {
            Some((rest.take(n as int), rest.skip(n as int)))
        } else {
            None
        },
    }
}

pub open spec fn enc_str(s: Seq<char>) -> Seq<char> {
    digits(s.len()) + seq![':'] + s
}

pub open spec fn enc_exchange(e: ExchangeView) -> Seq<char> {
    enc_str(e.query) + enc_str(e.answer)
}

/// The transport encoding of a sequence of exchanges.
pub open spec fn spec_encode(es: Seq<ExchangeView>) -> Seq<char>
    decreases es.len(),
{
    if es.len() == 0 {
        Seq::<char>::empty()
    } else {
        spec_encode(es.drop_last()) + enc_exchange(es.last())
    }
}

/// The decoding of a transport blob: `None` on malformed data.
pub open spec fn spec_decode(s: Seq<char>) -> Option<Seq<ExchangeView>>
    decreases s.len()
        via spec_decode_decreases
{
    if s.len() == 0 {
        Some(Seq::<ExchangeView>::empty())
    } else {
        match parse_str(s) {
            None => None,
            Some((q, r1)) => match parse_str(r1) {
                None => None,
                Some((a, r2)) => match spec_decode(r2) {
                    None => None,
                    Some(t) => Some(seq![ExchangeView { query: q, answer: a }] + t),
                },
            },
        }
    }
}

proof fn lemma_parse_nat_consumes(s: Seq<char>, acc: nat)
    ensures
        parse_nat(s, acc) matches Some(p) ==> p.1.len() < s.len(),
    decreases s.len(),
{
    if s.len() != 0 && s[0] != ':' && is_digit_char(s[0]) {
        lemma_parse_nat_consumes(s.drop_first(), acc * 10 + digit_val(s[0]));
    }
}

proof fn lemma_parse_str_consumes(s: Seq<char>)
    ensures
        parse_str(s) matches Some(p) ==> p.1.len() < s.len(),
{
    lemma_parse_nat_consumes(s, 0);
}

#[via_fn]
proof fn spec_decode_decreases(s: Seq<char>) {
    lemma_parse_str_consumes(s);
    match parse_str(s) {
        Some(p) => lemma_parse_str_consumes(p.1),
        None => {},
    }
}

proof fn lemma_parse_nat_digits(n: nat, acc: nat, tail: Seq<char>)
    ensures
        parse_nat(digits(n) + tail, acc) == parse_nat(tail, acc * pow10(digits(n).len()) + n),
    decreases n,
{
    if n < 10 {
        let s = digits(n) + tail;
        assert(s[0] == digit_char(n));
        assert(s.drop_first() =~= tail);
        assert(digit_val(digit_char(n)) == n);
        assert(pow10(0) == 1);
        assert(pow10(1) == 10);
    } else {
        let d = n % 10;
        let hi = n / 10;
        let s2 = seq![digit_char(d)] + tail;
        assert(digits(n) =~= digits(hi) + seq![digit_char(d)]);
        assert(digits(n) + tail =~= digits(hi) + s2);
        lemma_parse_nat_digits(hi, acc, s2);
        let l1 = digits(hi).len();
        let acc1 = acc * pow10(l1) + hi;
        assert(s2[0] == digit_char(d));
        assert(s2.drop_first() =~= tail);
        assert(parse_nat(s2, acc1) == parse_nat(tail, acc1 * 10 + d));
        assert(acc1 * 10 + d == acc * pow10(l1 + 1) + n) by {
            assert(pow10(l1 + 1) == 10 * pow10(l1));
            assert(hi * 10 + d == n);
            assert((acc * pow10(l1) + hi) * 10 == acc * pow10(l1) * 10 + hi * 10) by (nonlinear_arith);
            assert(acc * pow10(l1) * 10 == acc * (10 * pow10(l1))) by (nonlinear_arith);
        };
        assert(digits(n).len() == l1 + 1);
    }
}

proof fn lemma_parse_str_enc(s: Seq<char>, rest: Seq<char>)
    ensures
        parse_str(enc_str(s) + rest) == Some((s, rest)),
{
    let tail = seq![':'] + s + rest;
    assert(enc_str(s) + rest =~= digits(s.len()) + tail);
    lemma_parse_nat_digits(s.len(), 0, tail);
    assert(0 * pow10(digits(s.len()).len()) + s.len() == s.len());
    assert(tail[0] == ':');
    assert(tail.drop_first() =~= s + rest);
    assert(parse_nat(enc_str(s) + rest, 0) == Some((s.len(), s + rest)));
    assert((s + rest).len() >= s.len());
    assert((s + rest).take(s.len() as int) =~= s);
    assert((s + rest).skip(s.len() as int) =~= rest);
}

proof fn lemma_encode_unfold_front(es: Seq<ExchangeView>)
    requires
        es.len() > 0,
    ensures
        spec_encode(es) == enc_exchange(es[0]) + spec_encode(es.drop_first()),
    decreases es.len(),
{
    if es.len() == 1 {
        assert(es.drop_last() =~= Seq::<ExchangeView>::empty());
        assert(es.drop_first() =~= Seq::<ExchangeView>::empty());
        assert(es.last() == es[0]);
        assert(Seq::<char>::empty() + enc_exchange(es[0]) =~= enc_exchange(es[0])
            + Seq::<char>::empty());
    } else {
        let head = es.drop_last();
        lemma_encode_unfold_front(head);
        assert(head.drop_first() =~= es.drop_first().drop_last());
        assert(es.drop_first().last() == es.last());
        assert(es.drop_first().len() > 0);
        assert(spec_encode(es.drop_first()) == spec_encode(es.drop_first().drop_last())
            + enc_exchange(es.drop_first().last()));
        assert((enc_exchange(es[0]) + spec_encode(es.drop_first().drop_last())) + enc_exchange(
            es.last(),
        ) =~= enc_exchange(es[0]) + (spec_encode(es.drop_first().drop_last()) + enc_exchange(
            es.last(),
        )));
    }
}

proof fn lemma_enc_str_len(s: Seq<char>)
    ensures
        enc_str(s).len() >= 2,
        digits(s.len()).len() >= 1,
{
    assert(digits(s.len()).len() >= 1);
}

/// The encoding of any sequence of exchanges decodes back to exactly that
/// sequence.
pub proof fn lemma_decode_encode(es: Seq<ExchangeView>)
    ensures
        spec_decode(spec_encode(es)) == Some(es),
    decreases es.len(),
{
    if es.len() == 0 {
        assert(es =~= Seq::<ExchangeView>::empty());
    } else {
        lemma_encode_unfold_front(es);
        let e0 = es[0];
        let tail_enc = spec_encode(es.drop_first());
        assert(spec_encode(es) =~= enc_str(e0.query) + ((enc_str(e0.answer) + tail_enc)));
        lemma_parse_str_enc(e0.query, enc_str(e0.answer) + tail_enc);
        lemma_parse_str_enc(e0.answer, tail_enc);
        lemma_decode_encode(es.drop_first());
        lemma_enc_str_len(e0.query);
        assert(spec_encode(es).len() > 0);
        assert(parse_str(spec_encode(es)) == Some((e0.query, enc_str(e0.answer) + tail_enc)));
        assert(seq![ExchangeView { query: e0.query, answer: e0.answer }] + es.drop_first() =~= es);
    }
}

fn digit_str(d: usize) -> (r: &'static str)
    requires
        d < 10,
    ensures
        r@ == seq![digit_char(d as nat)],
{
    if d == 0 {
        proof {
            reveal_strlit("0");
            assert("0"@ =~= seq![digit_char(0)]);
        }
        "0"
    } else if d == 1 {
        proof {
            reveal_strlit("1");
            assert("1"@ =~= seq![digit_char(1)]);
        }
        "1"
    } else if d == 2 {
        proof {
            reveal_strlit("2");
            assert("2"@ =~= seq![digit_char(2)]);
        }
        "2"
    } else if d == 3 {
        proof {
            reveal_strlit("3");
            assert("3"@ =~= seq![digit_char(3)]);
        }
        "3"
    } else if d == 4 {
        proof {
            reveal_strlit("4");
            assert("4"@ =~= seq![digit_char(4)]);
        }
        "4"
    } else if d == 5 {
        proof {
            reveal_strlit("5");
            assert("5"@ =~= seq![digit_char(5)]);
        }
        "5"
    } else if d == 6 {
        proof {
            reveal_strlit("6");
            assert("6"@ =~= seq![digit_char(6)]);
        }
        "6"
    } else if d == 7 {
        proof {
            reveal_strlit("7");
            assert("7"@ =~= seq![digit_char(7)]);
        }
        "7"
    } else if d == 8 {
        proof {
            reveal_strlit("8");
            assert("8"@ =~= seq![digit_char(8)]);
        }
        "8"
    } else {
        proof {
            reveal_strlit("9");
            assert("9"@ =~= seq![digit_char(9)]);
        }
        "9"
    }
}

fn nat_to_string(n: usize) -> (r: String)
    ensures
        r@ == digits(n as nat),
    decreases n,
{
    let d: usize = n % 10;
    let ds = digit_str(d);
    if n < 10 {
        ds.to_owned()
    } else {
        let mut s = nat_to_string(n / 10);
        s.append(ds);
        proof {
            assert(digits((n / 10) as nat).push(digit_char((n % 10) as nat)) =~= digits(
                (n / 10) as nat,
            ) + seq![digit_char((n % 10) as nat)]);
        }
        s
    }
}

fn push_encoded(out: &mut String, s: &String)
    ensures
        final(out)@ == old(out)@ + enc_str(s@),
{
    let len_str = nat_to_string(s.as_str().unicode_len());
    out.append(len_str.as_str());
    proof {
        reveal_strlit(":");
    }
    out.append(":");
    out.append(s.as_str());
    proof {
        assert(":"@ =~= seq![':']);
        assert(out@ =~= old(out)@ + enc_str(s@));
    }
}

/// Serialize exchanges into the transport blob stored with a conversation.
pub fn encode_exchanges(es: &Vec<Exchange>) -> (r: String)
    ensures
        r@ == spec_encode(exchange_views(es@)),
{
    let mut out = String::new();
    let mut i: usize = 0;
    while i < es.len()
        invariant
            i <= es.len(),
            out@ == spec_encode(exchange_views(es@.take(i as int))),
        decreases es.len() - i,
    {
        let ghost prefix = exchange_views(es@.take(i as int));
        push_encoded(&mut out, &es[i].query);
        push_encoded(&mut out, &es[i].answer);
        proof {
            let stepped = exchange_views(es@.take(i as int + 1));
            assert(stepped =~= prefix.push(es@[i as int]@));
            assert(stepped.drop_last() =~= prefix);
            assert(stepped.last() == es@[i as int]@);
            assert(out@ =~= spec_encode(prefix) + enc_exchange(es@[i as int]@));
        }
        i += 1;
    }
    proof {
        assert(es@.take(es@.len() as int) =~= es@);
    }
    out
}

fn char_digit(c: char) -> (r: Option<usize>)
    ensures
        r matches Some(d) ==> is_digit_char(c) && d as nat == digit_val(c) && d < 10,
        r is None ==> !is_digit_char(c),
{
    if c == '0' {
        Some(0)
    } else if c == '1' {
        Some(1)
    } else if c == '2' {
        Some(2)
    } else if c == '3' {
        Some(3)
    } else if c == '4' {
        Some(4)
    } else if c == '5' {
        Some(5)
    } else if c == '6' {
        Some(6)
    } else if c == '7' {
        Some(7)
    } else if c == '8' {
        Some(8)
    } else if c == '9' {
        Some(9)
    } else {
        None
    }
}

fn parse_string(s: &str, pos: usize, len: usize) -> (r: Option<(String, usize)>)
    requires
        s@.len() == len as nat,
        pos <= len,
    ensures
        (match parse_str(s@.skip(pos as int)) {
            Some(p) => r matches Some(rp) && rp.0@ == p.0 && pos < rp.1 <= len && s@.skip(
                rp.1 as int,
            ) == p.1,
            None => r is None,
        }),
{
    let mut i: usize = pos;
    let mut acc: usize = 0;
    let mut over: bool = false;
    let ghost mut acc_true: nat = 0nat;
    loop
        invariant
            s@.len() == len as nat,
            pos <= i <= len,
            parse_nat(s@.skip(pos as int), 0) == parse_nat(s@.skip(i as int), acc_true),
            !over ==> acc as nat == acc_true,
            over ==> acc_true > usize::MAX as nat,
        ensures
            pos <= i < len,
            s@[i as int] == ':',
            parse_nat(s@.skip(pos as int), 0) == Some::<(nat, Seq<char>)>(
                (acc_true, s@.skip(i as int + 1)),
            ),
            !over ==> acc as nat == acc_true,
            over ==> acc_true > usize::MAX as nat,
        decreases len - i,
    {
        if i >= len {
            proof {
                assert(s@.skip(i as int) =~= Seq::<char>::empty());
            }
            return None;
        }
        let c = s.get_char(i);
        proof {
            assert(s@.skip(i as int)[0] == c);
        }
        if c == ':' {
            proof {
                assert(s@.skip(i as int).drop_first() =~= s@.skip(i as int + 1));
            }
            break;
        }
        match char_digit(c) {
            None => {
                return None;
            },
            Some(d) => {
                proof {
                    assert(s@.skip(i as int).drop_first() =~= s@.skip(i as int + 1));
                    acc_true = acc_true * 10 + digit_val(c);
                }
                if !over {
                    if acc <= (usize::MAX - d) / 10 {
                        acc = acc * 10 + d;
                    } else {
                        over = true;
                    }
                }
                i += 1;
            },
        }
    }
    if over {
        proof {
            assert(s@.skip(i as int + 1).len() < acc_true);
        }
        return None;
    }
    let rest_len = len - (i + 1);
    if acc > rest_len {
        proof {
            assert(s@.skip(i as int + 1).len() < acc_true);
        }
        return None;
    }
    let end = i + 1 + acc;
    let content = s.substring_char(i + 1, end);
    proof {
        assert(content@ =~= s@.skip(i as int + 1).take(acc as int));
        assert(s@.skip(end as int) =~= s@.skip(i as int + 1).skip(acc as int));
    }
    Some((content.to_owned(), end))
}

/// Deserialize a transport blob; `None` exactly on malformed data.
pub fn decode_exchanges(s: &str) -> (r: Option<Vec<Exchange>>)
    ensures
        (match spec_decode(s@) {
            Some(es) => r matches Some(v) && exchange_views(v@) == es,
            None => r is None,
        }),
{
    let len = s.unicode_len();
    let mut pos: usize = 0;
    let mut out: Vec<Exchange> = Vec::new();
    proof {
        assert(s@.skip(0) =~= s@);
        match spec_decode(s@) {
            Some(t) => {
                assert(exchange_views(out@) + t =~= t);
            },
            None => {},
        }
    }
    loop
        invariant
            s@.len() == len as nat,
            pos <= len,
            spec_decode(s@) == (match spec_decode(s@.skip(pos as int)) {
                Some(t) => Some(exchange_views(out@) + t),
                None => None::<Seq<ExchangeView>>,
            }),
        ensures
            pos == len,
            spec_decode(s@) == (match spec_decode(s@.skip(pos as int)) {
                Some(t) => Some(exchange_views(out@) + t),
                None => None::<Seq<ExchangeView>>,
            }),
        decreases len - pos,
    {
        if pos >= len {
            break;
        }
        assert(s@.skip(pos as int).len() > 0);
        let parsed_q = parse_string(s, pos, len);
        let (q, p1) = match parsed_q {
            None => {
                return None;
            },
            Some(x) => x,
        };
        let parsed_a = parse_string(s, p1, len);
        let (a, p2) = match parsed_a {
            None => {
                return None;
            },
            Some(x) => x,
        };
        proof {
            let ev = ExchangeView { query: q@, answer: a@ };
            match spec_decode(s@.skip(p2 as int)) {
                Some(t) => {
                    assert(spec_decode(s@.skip(pos as int)) == Some(seq![ev] + t));
                    assert(exchange_views(out@.push(Exchange { query: q, answer: a })) =~=
                        exchange_views(out@).push(ev));
                    assert(exchange_views(out@) + (seq![ev] + t) =~= exchange_views(out@).push(ev)
                        + t);
                },
                None => {
                    assert(spec_decode(s@.skip(pos as int)) is None);
                },
            }
        }
        out.push(Exchange { query: q, answer: a });
        pos = p2;
    }
    proof {
        assert(s@.skip(pos as int) =~= Seq::<char>::empty());
        assert(exchange_views(out@) + Seq::<ExchangeView>::empty() =~= exchange_views(out@));
    }
    Some(out)
}

} // verus!
