//! A small JSON document model and a verified codec for it.
//!
//! The envelope codec stores events as JSON text. The model here is the
//! fragment of JSON that the pipeline produces and consumes: numbers are
//! signed 64-bit integers, and object members keep their order. The printer
//! and the parser are verified against one spec-level grammar, and a
//! round-trip theorem connects the two.

use vstd::prelude::*;

verus! {

/// A JSON value as stored by the event pipeline: integers in place of
/// arbitrary numbers, object members kept in declaration order.
#[derive(Debug)]
pub enum JsonValue {
    Null,
    Bool(bool),
    Int(i64),
    Str(String),
    Arr(Vec<JsonValue>),
    Obj(Vec<(String, JsonValue)>),
}

/// The mathematical shape of a [`JsonValue`]: the same tree over `Seq` and
/// `int`. Contracts speak of this type.
pub enum JVal {
    Null,
    Bool(bool),
    Int(int),
    Str(Seq<char>),
    Arr(Seq<JVal>),
    Obj(Seq<(Seq<char>, JVal)>),
}

pub open spec fn jval_of(v: JsonValue) -> JVal
    decreases v,
{
    match v {
        JsonValue::Null => JVal::Null,
        JsonValue::Bool(b) => JVal::Bool(b),
        JsonValue::Int(i) => JVal::Int(i as int),
        JsonValue::Str(s) => JVal::Str(s@),
        JsonValue::Arr(es) => JVal::Arr(jvals_of(es@)),
        JsonValue::Obj(ms) => JVal::Obj(jmembers_of(ms@)),
    }
}

pub open spec fn jvals_of(es: Seq<JsonValue>) -> Seq<JVal>
    decreases es,
{
    if es.len() == 0 {
        Seq::empty()
    } else {
        seq![jval_of(es[0])] + jvals_of(es.drop_first())
    }
}

pub open spec fn jmembers_of(ms: Seq<(String, JsonValue)>) -> Seq<(Seq<char>, JVal)>
    decreases ms,
{
    if ms.len() == 0 {
        Seq::empty()
    } else {
        seq![(ms[0].0@, jval_of(ms[0].1))] + jmembers_of(ms.drop_first())
    }
}

impl View for JsonValue {
    type V = JVal;

    open spec fn view(&self) -> JVal {
        jval_of(*self)
    }
}

// ---------------------------------------------------------------------------
// The printed form: one spec function per grammar production.
// ---------------------------------------------------------------------------

pub open spec fn is_json_digit(c: char) -> bool {
    48 <= (c as u32) && (c as u32) <= 57
}

pub open spec fn digit_char(d: int) -> char {
    ((d + ('0' as int)) as u32) as char
}

pub open spec fn ser_nat(n: nat) -> Seq<char>
    decreases n,
{
    if n < 10 {
        seq![digit_char(n as int)]
    } else {
        ser_nat(n / 10) + seq![digit_char((n % 10) as int)]
    }
}

pub open spec fn ser_int(i: int) -> Seq<char> {
    if i < 0 {
        seq!['-'] + ser_nat((-i) as nat)
    } else {
        ser_nat(i as nat)
    }
}

pub open spec fn hex_char(d: int) -> char {
    if d < 10 {
        digit_char(d)
    } else {
        ((d - 10 + ('a' as int)) as u32) as char
    }
}

/// How one character appears inside a printed JSON string: quotation mark and
/// backslash are escaped, control characters take the `\u00XX` form, and
/// everything else stands as itself.
pub open spec fn esc(c: char) -> Seq<char> {
    if c == '"' {
        seq!['\\', '"']
    } else if c == '\\' {
        seq!['\\', '\\']
    } else if (c as u32) < 0x20 {
        seq!['\\', 'u', '0', '0', hex_char((c as u32) as int / 16), hex_char((c as u32) as int % 16)]
    } else {
        seq![c]
    }
}

pub open spec fn ser_str_body(s: Seq<char>) -> Seq<char>
    decreases s,
{
    if s.len() == 0 {
        Seq::empty()
    } else {
        esc(s[0]) + ser_str_body(s.drop_first())
    }
}

pub open spec fn ser_str(s: Seq<char>) -> Seq<char> {
    seq!['"'] + ser_str_body(s) + seq!['"']
}

pub open spec fn ser_val(v: JVal) -> Seq<char>
    decreases v, 1int,
{
    match v {
        JVal::Null => seq!['n', 'u', 'l', 'l'],
        JVal::Bool(b) => if b {
            seq!['t', 'r', 'u', 'e']
        } else {
            seq!['f', 'a', 'l', 's', 'e']
        },
        JVal::Int(i) => ser_int(i),
        JVal::Str(s) => ser_str(s),
        JVal::Arr(es) => seq!['['] + ser_elems(es) + seq![']'],
        JVal::Obj(ms) => seq!['{'] + ser_members(ms) + seq!['}'],
    }
}

pub open spec fn ser_elems(es: Seq<JVal>) -> Seq<char>
    decreases es, 0int,
{
    if es.len() == 0 {
        Seq::empty()
    } else if es.len() == 1 {
        ser_val(es[0])
    } else {
        ser_val(es[0]) + seq![','] + ser_elems(es.drop_first())
    }
}

pub open spec fn ser_members(ms: Seq<(Seq<char>, JVal)>) -> Seq<char>
    decreases ms, 0int,
{
    if ms.len() == 0 {
        Seq::empty()
    } else if ms.len() == 1 {
        ser_str(ms[0].0) + seq![':'] + ser_val(ms[0].1)
    } else {
        ser_str(ms[0].0) + seq![':'] + ser_val(ms[0].1) + seq![','] + ser_members(ms.drop_first())
    }
}

// ---------------------------------------------------------------------------
// A numeric height for the executable tree: the writer's termination measure.
// ---------------------------------------------------------------------------

pub open spec fn max_nat(a: nat, b: nat) -> nat {
    if a > b {
        a
    } else {
        b
    }
}

pub open spec fn jheight(v: JsonValue) -> nat
    decreases v,
{
    match v {
        JsonValue::Arr(es) => 1 + jheight_elems(es@),
        JsonValue::Obj(ms) => 1 + jheight_members(ms@),
        _ => 0,
    }
}

pub open spec fn jheight_elems(s: Seq<JsonValue>) -> nat
    decreases s,
{
    if s.len() == 0 {
        0
    } else {
        max_nat(jheight(s[0]), jheight_elems(s.drop_first()))
    }
}

pub open spec fn jheight_members(s: Seq<(String, JsonValue)>) -> nat
    decreases s,
{
    if s.len() == 0 {
        0
    } else {
        max_nat(jheight(s[0].1), jheight_members(s.drop_first()))
    }
}

proof fn lemma_jheight_elems_bound(s: Seq<JsonValue>)
    ensures
        forall|i: int| 0 <= i < s.len() ==> jheight(s[i]) <= jheight_elems(s),
    decreases s,
{
    if s.len() > 0 {
        lemma_jheight_elems_bound(s.drop_first());
        assert forall|i: int| 0 <= i < s.len() implies jheight(s[i]) <= jheight_elems(s) by {
            if i > 0 {
                assert(s.drop_first()[i - 1] == s[i]);
            }
        }
    }
}

proof fn lemma_jheight_members_bound(s: Seq<(String, JsonValue)>)
    ensures
        forall|i: int| 0 <= i < s.len() ==> jheight(s[i].1) <= jheight_members(s),
    decreases s,
{
    if s.len() > 0 {
        lemma_jheight_members_bound(s.drop_first());
        assert forall|i: int| 0 <= i < s.len() implies jheight(s[i].1) <= jheight_members(s) by {
            if i > 0 {
                assert(s.drop_first()[i - 1] == s[i]);
            }
        }
    }
}

// ---------------------------------------------------------------------------
// Facts about the printed form that the writer's loops lean on.
// ---------------------------------------------------------------------------

pub proof fn lemma_jvals_of_index(es: Seq<JsonValue>)
    ensures
        jvals_of(es).len() == es.len(),
        forall|i: int| 0 <= i < es.len() ==> jvals_of(es)[i] == jval_of(es[i]),
    decreases es,
{
    if es.len() > 0 {
        lemma_jvals_of_index(es.drop_first());
    }
}

pub proof fn lemma_jmembers_of_index(ms: Seq<(String, JsonValue)>)
    ensures
        jmembers_of(ms).len() == ms.len(),
        forall|i: int|
            0 <= i < ms.len() ==> jmembers_of(ms)[i] == (ms[i].0@, jval_of(ms[i].1)),
    decreases ms,
{
    if ms.len() > 0 {
        lemma_jmembers_of_index(ms.drop_first());
    }
}

pub proof fn lemma_ser_str_body_snoc(s: Seq<char>, c: char)
    ensures
        ser_str_body(s.push(c)) == ser_str_body(s) + esc(c),
    decreases s.len(),
{
    if s.len() == 0 {
        assert(s.push(c)[0] == c);
        assert(s.push(c).drop_first() =~= Seq::<char>::empty());
        assert(ser_str_body(Seq::<char>::empty()) =~= Seq::<char>::empty());
        assert(ser_str_body(s.push(c)) =~= ser_str_body(s) + esc(c));
    } else {
        assert(s.push(c).drop_first() =~= s.drop_first().push(c));
        lemma_ser_str_body_snoc(s.drop_first(), c);
        assert(s.push(c)[0] == s[0]);
        assert(ser_str_body(s.push(c)) =~= ser_str_body(s) + esc(c));
    }
}

pub proof fn lemma_ser_elems_snoc(s: Seq<JVal>, x: JVal)
    ensures
        ser_elems(s.push(x)) == if s.len() == 0 {
            ser_val(x)
        } else {
            ser_elems(s) + seq![','] + ser_val(x)
        },
    decreases s.len(),
{
    if s.len() == 0 {
        assert(s.push(x) =~= seq![x]);
        assert(ser_elems(seq![x]) == ser_val(x));
    } else {
        assert(s.push(x).drop_first() =~= s.drop_first().push(x));
        lemma_ser_elems_snoc(s.drop_first(), x);
        assert(s.push(x)[0] == s[0]);
        if s.len() == 1 {
            assert(ser_elems(s.push(x)) =~= ser_elems(s) + seq![','] + ser_val(x));
        } else {
            assert(ser_elems(s.push(x)) =~= ser_elems(s) + seq![','] + ser_val(x));
        }
    }
}

pub proof fn lemma_ser_members_snoc(ms: Seq<(Seq<char>, JVal)>, k: Seq<char>, x: JVal)
    ensures
        ser_members(ms.push((k, x))) == if ms.len() == 0 {
            ser_str(k) + seq![':'] + ser_val(x)
        } else {
            ser_members(ms) + seq![','] + ser_str(k) + seq![':'] + ser_val(x)
        },
    decreases ms.len(),
{
    if ms.len() == 0 {
        assert(ms.push((k, x)) =~= seq![(k, x)]);
        assert(ser_members(seq![(k, x)]) =~= ser_str(k) + seq![':'] + ser_val(x));
    } else {
        assert(ms.push((k, x)).drop_first() =~= ms.drop_first().push((k, x)));
        lemma_ser_members_snoc(ms.drop_first(), k, x);
        assert(ms.push((k, x))[0] == ms[0]);
        assert(ser_members(ms.push((k, x))) =~= ser_members(ms) + seq![','] + ser_str(k)
            + seq![':'] + ser_val(x));
    }
}

// ---------------------------------------------------------------------------
// The verified writer.
// ---------------------------------------------------------------------------

fn hex_char_ex(d: u32) -> (c: char)
    requires
        d < 16,
    ensures
        c == hex_char(d as int),
{
    if d < 10 {
        ((('0' as u32) + d) as u8) as char
    } else {
        ((('a' as u32) + (d - 10)) as u8) as char
    }
}

fn write_nat(n: u64, out: &mut Vec<char>)
    ensures
        final(out)@ == old(out)@ + ser_nat(n as nat),
    decreases n,
{
    if n < 10 {
        out.push(((('0' as u32) + (n as u32)) as u8) as char);
        assert(out@ =~= old(out)@ + ser_nat(n as nat));
    } else {
        write_nat(n / 10, out);
        out.push(((('0' as u32) + ((n % 10) as u32)) as u8) as char);
        assert(out@ =~= old(out)@ + ser_nat(n as nat));
    }
}

fn write_int(i: i64, out: &mut Vec<char>)
    ensures
        final(out)@ == old(out)@ + ser_int(i as int),
{
    if i < 0 {
        out.push('-');
        let mag: u64 = ((-(i + 1)) as u64) + 1;
        assert(mag as int == -(i as int));
        write_nat(mag, out);
        assert(out@ =~= old(out)@ + ser_int(i as int));
    } else {
        write_nat(i as u64, out);
    }
}

fn write_str_body(s: &str, out: &mut Vec<char>)
    ensures
        final(out)@ == old(out)@ + ser_str_body(s@),
{
    let n: usize = s.unicode_len();
    let mut j: usize = 0;
    while j < n
        invariant
            n == s@.len(),
            j <= n,
            out@ == old(out)@ + ser_str_body(s@.take(j as int)),
        decreases n - j,
    {
        let c = s.get_char(j);
        let ghost pre = out@;
        if c == '"' {
            out.push('\\');
            out.push('"');
        } else if c == '\\' {
            out.push('\\');
            out.push('\\');
        } else if (c as u32) < 0x20 {
            out.push('\\');
            out.push('u');
            out.push('0');
            out.push('0');
            out.push(hex_char_ex((c as u32) / 16));
            out.push(hex_char_ex((c as u32) % 16));
        } else {
            out.push(c);
        }
        proof {
            assert(out@ =~= pre + esc(c));
            lemma_ser_str_body_snoc(s@.take(j as int), c);
            assert(s@.take(j as int).push(c) =~= s@.take(j + 1 as int));
        }
        j = j + 1;
    }
    proof {
        assert(s@.take(n as int) =~= s@);
    }
}

fn write_str(s: &str, out: &mut Vec<char>)
    ensures
        final(out)@ == old(out)@ + ser_str(s@),
{
    out.push('"');
    write_str_body(s, out);
    out.push('"');
    assert(out@ =~= old(out)@ + ser_str(s@));
}

/// Append the printed form of `v` to `out`.
pub fn write_val(v: &JsonValue, out: &mut Vec<char>)
    ensures
        final(out)@ == old(out)@ + ser_val(v@),
    decreases jheight(*v),
{
    match v {
        JsonValue::Null => {
            out.push('n');
            out.push('u');
            out.push('l');
            out.push('l');
            assert(out@ =~= old(out)@ + ser_val(JVal::Null));
        },
        JsonValue::Bool(b) => {
            if *b {
                out.push('t');
                out.push('r');
                out.push('u');
                out.push('e');
            } else {
                out.push('f');
                out.push('a');
                out.push('l');
                out.push('s');
                out.push('e');
            }
            assert(out@ =~= old(out)@ + ser_val(v@));
        },
        JsonValue::Int(i) => {
            write_int(*i, out);
        },
        JsonValue::Str(s) => {
            write_str(s.as_str(), out);
        },
        JsonValue::Arr(es) => {
            out.push('[');
            let ghost base = out@;
            proof {
                lemma_jvals_of_index(es@);
                lemma_jheight_elems_bound(es@);
            }
            let mut j: usize = 0;
            while j < es.len()
                invariant
                    j <= es.len(),
                    jvals_of(es@).len() == es@.len(),
                    forall|i: int| 0 <= i < es@.len() ==> jvals_of(es@)[i] == jval_of(es@[i]),
                    forall|i: int| 0 <= i < es@.len() ==> jheight(es@[i]) <= jheight_elems(es@),
                    jheight(*v) == 1 + jheight_elems(es@),
                    out@ == base + ser_elems(jvals_of(es@).take(j as int)),
                decreases es.len() - j,
            {
                if j > 0 {
                    out.push(',');
                }
                let ghost mid = out@;
                write_val(&es[j], out);
                proof {
                    lemma_ser_elems_snoc(jvals_of(es@).take(j as int), jval_of(es@[j as int]));
                    assert(jvals_of(es@).take(j as int).push(jval_of(es@[j as int])) =~= jvals_of(
                        es@,
                    ).take(j + 1 as int));
                    assert(out@ =~= base + ser_elems(jvals_of(es@).take(j + 1 as int)));
                }
                j = j + 1;
            }
            out.push(']');
            proof {
                assert(jvals_of(es@).take(es@.len() as int) =~= jvals_of(es@));
                assert(out@ =~= old(out)@ + ser_val(v@));
            }
        },
        JsonValue::Obj(ms) => {
            out.push('{');
            let ghost base = out@;
            proof {
                lemma_jmembers_of_index(ms@);
                lemma_jheight_members_bound(ms@);
            }
            let mut j: usize = 0;
            while j < ms.len()
                invariant
                    j <= ms.len(),
                    jmembers_of(ms@).len() == ms@.len(),
                    forall|i: int|
                        0 <= i < ms@.len() ==> jmembers_of(ms@)[i] == (
                            ms@[i].0@,
                            jval_of(ms@[i].1),
                        ),
                    forall|i: int| 0 <= i < ms@.len() ==> jheight(ms@[i].1) <= jheight_members(ms@),
                    jheight(*v) == 1 + jheight_members(ms@),
                    out@ == base + ser_members(jmembers_of(ms@).take(j as int)),
                decreases ms.len() - j,
            {
                if j > 0 {
                    out.push(',');
                }
                let member = &ms[j];
                write_str(member.0.as_str(), out);
                out.push(':');
                write_val(&member.1, out);
                proof {
                    lemma_ser_members_snoc(
                        jmembers_of(ms@).take(j as int),
                        ms@[j as int].0@,
                        jval_of(ms@[j as int].1),
                    );
                    assert(jmembers_of(ms@).take(j as int).push(
                        (ms@[j as int].0@, jval_of(ms@[j as int].1)),
                    ) =~= jmembers_of(ms@).take(j + 1 as int));
                    assert(out@ =~= base + ser_members(jmembers_of(ms@).take(j + 1 as int)));
                }
                j = j + 1;
            }
            out.push('}');
            proof {
                assert(jmembers_of(ms@).take(ms@.len() as int) =~= jmembers_of(ms@));
                assert(out@ =~= old(out)@ + ser_val(v@));
            }
        },
    }
}

/// The printed form of `v` as a sequence of characters.
pub fn to_text(v: &JsonValue) -> (r: Vec<char>)
    ensures
        r@ == ser_val(v@),
{
    let mut out: Vec<char> = Vec::new();
    write_val(v, &mut out);
    out
}

pub proof fn lemma_jvals_of_snoc(es: Seq<JsonValue>, x: JsonValue)
    ensures
        jvals_of(es.push(x)) == jvals_of(es) + seq![jval_of(x)],
    decreases es.len(),
{
    if es.len() == 0 {
        assert(es =~= Seq::<JsonValue>::empty());
        assert(es.push(x)[0] == x);
        assert(es.push(x).drop_first() =~= Seq::<JsonValue>::empty());
        assert(jvals_of(es.push(x)) =~= jvals_of(es) + seq![jval_of(x)]);
    } else {
        assert(es.push(x).drop_first() =~= es.drop_first().push(x));
        lemma_jvals_of_snoc(es.drop_first(), x);
        assert(es.push(x)[0] == es[0]);
        assert(jvals_of(es.push(x)) =~= jvals_of(es) + seq![jval_of(x)]);
    }
}

pub proof fn lemma_jmembers_of_snoc(ms: Seq<(String, JsonValue)>, x: (String, JsonValue))
    ensures
        jmembers_of(ms.push(x)) == jmembers_of(ms) + seq![(x.0@, jval_of(x.1))],
    decreases ms.len(),
{
    if ms.len() == 0 {
        assert(ms =~= Seq::<(String, JsonValue)>::empty());
        assert(ms.push(x)[0] == x);
        assert(ms.push(x).drop_first() =~= Seq::<(String, JsonValue)>::empty());
        assert(jmembers_of(ms.push(x)) =~= jmembers_of(ms) + seq![(x.0@, jval_of(x.1))]);
    } else {
        assert(ms.push(x).drop_first() =~= ms.drop_first().push(x));
        lemma_jmembers_of_snoc(ms.drop_first(), x);
        assert(ms.push(x)[0] == ms[0]);
        assert(jmembers_of(ms.push(x)) =~= jmembers_of(ms) + seq![(x.0@, jval_of(x.1))]);
    }
}

impl Clone for JsonValue {
    /// A deep copy with the same mathematical value.
    fn clone(&self) -> (r: Self)
        ensures
            r@ == self@,
        decreases jheight(*self),
    {
        match self {
            JsonValue::Null => JsonValue::Null,
            JsonValue::Bool(b) => JsonValue::Bool(*b),
            JsonValue::Int(i) => JsonValue::Int(*i),
            JsonValue::Str(s) => JsonValue::Str(s.clone()),
            JsonValue::Arr(es) => {
                proof {
                    lemma_jheight_elems_bound(es@);
                }
                let mut out: Vec<JsonValue> = Vec::new();
                let mut j: usize = 0;
                while j < es.len()
                    invariant
                        j <= es.len(),
                        forall|i: int|
                            0 <= i < es@.len() ==> jheight(es@[i]) <= jheight_elems(es@),
                        jheight(*self) == 1 + jheight_elems(es@),
                        jvals_of(out@) == jvals_of(es@.take(j as int)),
                    decreases es.len() - j,
                {
                    let ghost pre = out@;
                    out.push(es[j].clone());
                    proof {
                        lemma_jvals_of_snoc(pre, out@.last());
                        lemma_jvals_of_snoc(es@.take(j as int), es@[j as int]);
                        assert(pre.push(out@.last()) =~= out@);
                        assert(es@.take(j as int).push(es@[j as int]) =~= es@.take(j + 1int));
                        assert(jvals_of(out@) =~= jvals_of(es@.take(j + 1int)));
                    }
                    j = j + 1;
                }
                proof {
                    assert(es@.take(es@.len() as int) =~= es@);
                }
                JsonValue::Arr(out)
            },
            JsonValue::Obj(ms) => {
                proof {
                    lemma_jheight_members_bound(ms@);
                }
                let mut out: Vec<(String, JsonValue)> = Vec::new();
                let mut j: usize = 0;
                while j < ms.len()
                    invariant
                        j <= ms.len(),
                        forall|i: int|
                            0 <= i < ms@.len() ==> jheight(ms@[i].1) <= jheight_members(ms@),
                        jheight(*self) == 1 + jheight_members(ms@),
                        jmembers_of(out@) == jmembers_of(ms@.take(j as int)),
                    decreases ms.len() - j,
                {
                    let ghost pre = out@;
                    let member = &ms[j];
                    out.push((member.0.clone(), member.1.clone()));
                    proof {
                        lemma_jmembers_of_snoc(pre, out@.last());
                        lemma_jmembers_of_snoc(ms@.take(j as int), ms@[j as int]);
                        assert(pre.push(out@.last()) =~= out@);
                        assert(ms@.take(j as int).push(ms@[j as int]) =~= ms@.take(j + 1int));
                        assert(jmembers_of(out@) =~= jmembers_of(ms@.take(j + 1int)));
                    }
                    j = j + 1;
                }
                proof {
                    assert(ms@.take(ms@.len() as int) =~= ms@);
                }
                JsonValue::Obj(out)
            },
        }
    }
}

// ---------------------------------------------------------------------------
// The grammar that the reader accepts, as spec functions. Each one consumes a
// prefix of its input and says how many characters it took.
// ---------------------------------------------------------------------------

pub open spec fn is_hex_digit(c: char) -> bool {
    is_json_digit(c) || (97 <= (c as u32) && (c as u32) <= 102) || (65 <= (c as u32) && (c as u32)
        <= 70)
}

pub open spec fn hex_digit_val(c: char) -> int {
    if is_json_digit(c) {
        (c as u32) - 48
    } else if 97 <= (c as u32) && (c as u32) <= 102 {
        (c as u32) - 97 + 10
    } else {
        (c as u32) - 65 + 10
    }
}

/// The character named by a single-letter escape, if the letter is one the
/// grammar knows.
pub open spec fn unescape1(e: char) -> Option<char> {
    if e == '"' {
        Some('"')
    } else if e == '\\' {
        Some('\\')
    } else if e == '/' {
        Some('/')
    } else if e == 'n' {
        Some('\n')
    } else if e == 't' {
        Some('\t')
    } else if e == 'r' {
        Some('\r')
    } else if e == 'b' {
        Some((0x08u32) as char)
    } else if e == 'f' {
        Some((0x0cu32) as char)
    } else {
        None
    }
}

/// Read the body of a string up to and including the closing quotation mark.
/// `\uXXXX` escapes are accepted for code points below 0x80.
pub open spec fn p_str_body(s: Seq<char>) -> Option<(Seq<char>, nat)>
    decreases s.len(),
{
    if s.len() == 0 {
        None
    } else if s[0] == '"' {
        Some((Seq::empty(), 1nat))
    } else if s[0] == '\\' {
        if s.len() < 2 {
            None
        } else if s[1] == 'u' {
            if s.len() >= 6 && is_hex_digit(s[2]) && is_hex_digit(s[3]) && is_hex_digit(s[4])
                && is_hex_digit(s[5]) {
                let cp = hex_digit_val(s[2]) * 4096 + hex_digit_val(s[3]) * 256 + hex_digit_val(
                    s[4],
                ) * 16 + hex_digit_val(s[5]);
                if cp < 0x80 {
                    match p_str_body(s.skip(6int)) {
                        None => None,
                        Some((t, n)) => Some((seq![((cp as u32) as char)] + t, (6 + n) as nat)),
                    }
                } else {
                    None
                }
            } else {
                None
            }
        } else {
            match unescape1(s[1]) {
                None => None,
                Some(c) => match p_str_body(s.skip(2int)) {
                    None => None,
                    Some((t, n)) => Some((seq![c] + t, (2 + n) as nat)),
                },
            }
        }
    } else if (s[0] as u32) < 0x20 {
        None
    } else {
        match p_str_body(s.skip(1)) {
            None => None,
            Some((t, n)) => Some((seq![s[0]] + t, (1 + n) as nat)),
        }
    }
}

/// Length of the maximal run of decimal digits at the front of `s`.
pub open spec fn digit_run(s: Seq<char>) -> nat
    decreases s.len(),
{
    if s.len() == 0 || !is_json_digit(s[0]) {
        0
    } else {
        1 + digit_run(s.skip(1))
    }
}

/// Numeric value of a sequence of decimal digits.
pub open spec fn digits_val(s: Seq<char>) -> nat
    decreases s.len(),
{
    if s.len() == 0 {
        0
    } else {
        (digits_val(s.drop_last()) * 10 + ((s.last() as u32) - ('0' as u32))) as nat
    }
}

/// Read an integer: an optional minus sign and a run of digits without a
/// leading zero, within the signed 64-bit range.
pub open spec fn p_int(s: Seq<char>) -> Option<(int, nat)> {
    if s.len() == 0 {
        None
    } else if s[0] == '-' {
        let k = digit_run(s.skip(1));
        if k == 0 {
            None
        } else if k >= 2 && s[1] == '0' {
            None
        } else {
            let m = digits_val(s.skip(1).take(k as int));
            if m <= 0x8000_0000_0000_0000 {
                Some((-(m as int), (1 + k) as nat))
            } else {
                None
            }
        }
    } else {
        let k = digit_run(s);
        if k == 0 {
            None
        } else if k >= 2 && s[0] == '0' {
            None
        } else {
            let m = digits_val(s.take(k as int));
            if m < 0x8000_0000_0000_0000 {
                Some((m as int, k))
            } else {
                None
            }
        }
    }
}

/// Read one value.
pub open spec fn p_val(s: Seq<char>) -> Option<(JVal, nat)>
    decreases s.len(), 0int,
{
    if s.len() == 0 {
        None
    } else if s[0] == 'n' {
        if s.len() >= 4 && s[1] == 'u' && s[2] == 'l' && s[3] == 'l' {
            Some((JVal::Null, 4nat))
        } else {
            None
        }
    } else if s[0] == 't' {
        if s.len() >= 4 && s[1] == 'r' && s[2] == 'u' && s[3] == 'e' {
            Some((JVal::Bool(true), 4nat))
        } else {
            None
        }
    } else if s[0] == 'f' {
        if s.len() >= 5 && s[1] == 'a' && s[2] == 'l' && s[3] == 's' && s[4] == 'e' {
            Some((JVal::Bool(false), 5nat))
        } else {
            None
        }
    } else if s[0] == '"' {
        match p_str_body(s.skip(1)) {
            None => None,
            Some((t, n)) => Some((JVal::Str(t), (1 + n) as nat)),
        }
    } else if s[0] == '[' {
        if s.len() >= 2 && s[1] == ']' {
            Some((JVal::Arr(Seq::empty()), 2nat))
        } else {
            match p_elems(s.skip(1)) {
                None => None,
                Some((es, n)) => Some((JVal::Arr(es), (1 + n) as nat)),
            }
        }
    } else if s[0] == '{' {
        if s.len() >= 2 && s[1] == '}' {
            Some((JVal::Obj(Seq::empty()), 2nat))
        } else {
            match p_members(s.skip(1)) {
                None => None,
                Some((ms, n)) => Some((JVal::Obj(ms), (1 + n) as nat)),
            }
        }
    } else if s[0] == '-' || is_json_digit(s[0]) {
        match p_int(s) {
            None => None,
            Some((i, n)) => Some((JVal::Int(i), n)),
        }
    } else {
        None
    }
}

/// Read the elements of a non-empty array, up to and including the closing
/// bracket.
pub open spec fn p_elems(s: Seq<char>) -> Option<(Seq<JVal>, nat)>
    decreases s.len(), 1int,
{
    match p_val(s) {
        None => None,
        Some((v, n)) => if n < s.len() && s[n as int] == ',' {
            match p_elems(s.skip(n + 1int)) {
                None => None,
                Some((es, m)) => Some((seq![v] + es, (n + 1 + m) as nat)),
            }
        } else if n < s.len() && s[n as int] == ']' {
            Some((seq![v], (n + 1) as nat))
        } else {
            None
        },
    }
}

/// Read the members of a non-empty object, up to and including the closing
/// brace.
pub open spec fn p_members(s: Seq<char>) -> Option<(Seq<(Seq<char>, JVal)>, nat)>
    decreases s.len(), 1int,
{
    if s.len() == 0 || s[0] != '"' {
        None
    } else {
        match p_str_body(s.skip(1)) {
            None => None,
            Some((k, n)) => {
                let c1 = (1 + n) as nat;
                if c1 < s.len() && s[c1 as int] == ':' {
                    match p_val(s.skip(c1 + 1int)) {
                        None => None,
                        Some((v, m)) => {
                            let c2 = (c1 + 1 + m) as nat;
                            if c2 < s.len() && s[c2 as int] == ',' {
                                match p_members(s.skip(c2 + 1int)) {
                                    None => None,
                                    Some((ms, t)) => Some(
                                        (seq![(k, v)] + ms, (c2 + 1 + t) as nat),
                                    ),
                                }
                            } else if c2 < s.len() && s[c2 as int] == '}' {
                                Some((seq![(k, v)], (c2 + 1) as nat))
                            } else {
                                None
                            }
                        },
                    }
                } else {
                    None
                }
            },
        }
    }
}

/// Read a whole document: one value that consumes the full input.
pub open spec fn p_doc(s: Seq<char>) -> Option<JVal> {
    match p_val(s) {
        None => None,
        Some((v, n)) => if n == s.len() {
            Some(v)
        } else {
            None
        },
    }
}

// ---------------------------------------------------------------------------
// The verified reader.
// ---------------------------------------------------------------------------

proof fn lemma_skip_skip(s: Seq<char>, a: int, b: int)
    requires
        0 <= a,
        0 <= b,
        a + b <= s.len(),
    ensures
        s.skip(a).skip(b) == s.skip(a + b),
{
    assert(s.skip(a).skip(b) =~= s.skip(a + b));
}

/// Relies on `String`'s `FromIterator` implementation: collecting characters
/// yields a string of exactly those characters.
#[verifier::external_body]
pub(crate) fn chars_to_string(v: Vec<char>) -> (r: String)
    ensures
        r@ == v@,
{
    v.into_iter().collect()
}

fn hex_digit_val_ex(c: char) -> (r: Option<u32>)
    ensures
        r is Some <==> is_hex_digit(c),
        r is Some ==> r.unwrap() == hex_digit_val(c) && r.unwrap() < 16,
{
    let u = c as u32;
    if 48 <= u && u <= 57 {
        Some(u - 48)
    } else if 97 <= u && u <= 102 {
        Some(u - 97 + 10)
    } else if 65 <= u && u <= 70 {
        Some(u - 65 + 10)
    } else {
        None
    }
}

fn parse_str_body(cs: &Vec<char>, i: usize) -> (r: Option<(Vec<char>, usize)>)
    requires
        i <= cs@.len(),
    ensures
        ({
            let sp = p_str_body(cs@.skip(i as int));
            match r {
                None => sp is None,
                Some((t, j)) => sp is Some && t@ == sp.unwrap().0 && j == i + sp.unwrap().1 && i
                    < j <= cs@.len(),
            }
        }),
{
    let ghost s0 = cs@.skip(i as int);
    let mut cur: usize = i;
    let mut acc: Vec<char> = Vec::new();
    loop
        invariant
            i <= cur <= cs@.len(),
            s0 == cs@.skip(i as int),
            (p_str_body(s0) is Some <==> p_str_body(cs@.skip(cur as int)) is Some),
            p_str_body(s0) is Some ==> p_str_body(s0).unwrap().0 == acc@ + p_str_body(
                cs@.skip(cur as int),
            ).unwrap().0,
            p_str_body(s0) is Some ==> p_str_body(s0).unwrap().1 == (cur - i) + p_str_body(
                cs@.skip(cur as int),
            ).unwrap().1,
        decreases cs@.len() - cur,
    {
        let ghost scur = cs@.skip(cur as int);
        if cur >= cs.len() {
            assert(scur.len() == 0);
            return None;
        }
        let c = cs[cur];
        assert(scur[0] == c);
        if c == '"' {
            assert(p_str_body(scur) == Some((Seq::<char>::empty(), 1nat)));
            proof {
                assert(p_str_body(s0).unwrap().0 =~= acc@);
            }
            return Some((acc, cur + 1));
        } else if c == '\\' {
            if cur + 1 >= cs.len() {
                assert(scur.len() < 2);
                return None;
            }
            let e = cs[cur + 1];
            assert(scur[1] == e);
            if e == 'u' {
                if cs.len() - cur < 6 {
                    assert(scur.len() < 6);
                    return None;
                }
                assert(scur.len() >= 6);
                let h2 = hex_digit_val_ex(cs[cur + 2]);
                let h3 = hex_digit_val_ex(cs[cur + 3]);
                let h4 = hex_digit_val_ex(cs[cur + 4]);
                let h5 = hex_digit_val_ex(cs[cur + 5]);
                assert(scur[2] == cs@[cur + 2] && scur[3] == cs@[cur + 3] && scur[4] == cs@[cur
                    + 4] && scur[5] == cs@[cur + 5]);
                match (h2, h3, h4, h5) {
                    (Some(a), Some(b), Some(cc), Some(d)) => {
                        let cp: u32 = a * 4096 + b * 256 + cc * 16 + d;
                        if cp < 0x80 {
                            let ghost pre = acc@;
                            acc.push((cp as u8) as char);
                            cur = cur + 6;
                            proof {
                                lemma_skip_skip(cs@, (cur - 6) as int, 6);
                                assert(acc@ =~= pre + seq![((cp as u32) as char)]);
                                if p_str_body(s0) is Some {
                                    assert(p_str_body(s0).unwrap().0 =~= acc@ + p_str_body(
                                        cs@.skip(cur as int),
                                    ).unwrap().0);
                                }
                            }
                        } else {
                            return None;
                        }
                    },
                    _ => {
                        return None;
                    },
                }
            } else {
                let un: Option<char> = if e == '"' {
                    Some('"')
                } else if e == '\\' {
                    Some('\\')
                } else if e == '/' {
                    Some('/')
                } else if e == 'n' {
                    Some('\n')
                } else if e == 't' {
                    Some('\t')
                } else if e == 'r' {
                    Some('\r')
                } else if e == 'b' {
                    Some((0x08u8) as char)
                } else if e == 'f' {
                    Some((0x0cu8) as char)
                } else {
                    None
                };
                assert(un == unescape1(e));
                match un {
                    None => {
                        return None;
                    },
                    Some(u) => {
                        let ghost pre = acc@;
                        acc.push(u);
                        cur = cur + 2;
                        proof {
                            lemma_skip_skip(cs@, (cur - 2) as int, 2);
                            assert(acc@ =~= pre + seq![u]);
                            if p_str_body(s0) is Some {
                                assert(p_str_body(s0).unwrap().0 =~= acc@ + p_str_body(
                                    cs@.skip(cur as int),
                                ).unwrap().0);
                            }
                        }
                    },
                }
            }
        } else if (c as u32) < 0x20 {
            return None;
        } else {
            let ghost pre = acc@;
            acc.push(c);
            cur = cur + 1;
            proof {
                lemma_skip_skip(cs@, (cur - 1) as int, 1);
                assert(acc@ =~= pre + seq![c]);
                if p_str_body(s0) is Some {
                    assert(p_str_body(s0).unwrap().0 =~= acc@ + p_str_body(
                        cs@.skip(cur as int),
                    ).unwrap().0);
                }
            }
        }
    }
}

fn is_digit_ex(c: char) -> (r: bool)
    ensures
        r == is_json_digit(c),
{
    let u = c as u32;
    48 <= u && u <= 57
}

fn parse_int(cs: &Vec<char>, i: usize) -> (r: Option<(i64, usize)>)
    requires
        i <= cs@.len(),
    ensures
        ({
            let sp = p_int(cs@.skip(i as int));
            match r {
                None => sp is None,
                Some((v, j)) => sp is Some && v as int == sp.unwrap().0 && j == i + sp.unwrap().1
                    && i < j <= cs@.len(),
            }
        }),
{
    let ghost s0 = cs@.skip(i as int);
    if i >= cs.len() {
        assert(s0.len() == 0);
        return None;
    }
    assert(s0[0] == cs@[i as int]);
    let neg = cs[i] == '-';
    let start: usize = if neg {
        i + 1
    } else {
        i
    };
    proof {
        if neg {
            lemma_skip_skip(cs@, i as int, 1);
        }
    }
    let ghost sd = cs@.skip(start as int);
    // Scan the digit run.
    let mut end: usize = start;
    while end < cs.len() && is_digit_ex(cs[end])
        invariant
            start <= end <= cs@.len(),
            start <= cs@.len(),
            sd == cs@.skip(start as int),
            digit_run(sd) == (end - start) + digit_run(cs@.skip(end as int)),
            forall|k: int| start <= k < end ==> is_json_digit(cs@[k]),
        decreases cs@.len() - end,
    {
        let ghost se = cs@.skip(end as int);
        assert(se[0] == cs@[end as int]);
        proof {
            lemma_skip_skip(cs@, end as int, 1);
        }
        assert(digit_run(se) == 1 + digit_run(cs@.skip(end + 1)));
        end = end + 1;
    }
    proof {
        let se = cs@.skip(end as int);
        if end < cs@.len() {
            assert(se[0] == cs@[end as int]);
        }
        assert(digit_run(se) == 0);
    }
    let k: usize = end - start;
    assert(digit_run(sd) == k);
    if k == 0 {
        return None;
    }
    if k >= 2 && cs[start] == '0' {
        assert(sd[0] == cs@[start as int]);
        assert(if neg {
            s0[1] == cs@[start as int]
        } else {
            s0[0] == cs@[start as int]
        });
        return None;
    }
    // The digits whose value the grammar takes.
    let ghost dd = sd.take(k as int);
    proof {
        assert(dd =~= cs@.subrange(start as int, end as int));
    }
    // Accumulate the value, saturating just above the signed 64-bit range.
    let mut acc: u128 = 0;
    let mut j: usize = start;
    while j < end
        invariant
            start <= j <= end <= cs@.len(),
            dd == cs@.subrange(start as int, end as int),
            forall|t: int| start <= t < end ==> is_json_digit(cs@[t]),
            acc <= 0x8000_0000_0000_0001,
            digits_val(dd.take((j - start) as int)) <= 0x8000_0000_0000_0000 ==> acc == digits_val(
                dd.take((j - start) as int),
            ),
            digits_val(dd.take((j - start) as int)) > 0x8000_0000_0000_0000 ==> acc
                > 0x8000_0000_0000_0000,
        decreases end - j,
    {
        let d: u32 = (cs[j] as u32) - 48;
        let ghost prefix = dd.take((j - start) as int);
        proof {
            assert(dd.take((j - start + 1) as int).drop_last() =~= prefix);
            assert(dd.take((j - start + 1) as int).last() == cs@[j as int]);
        }
        acc = acc * 10 + (d as u128);
        if acc > 0x8000_0000_0000_0000 {
            acc = 0x8000_0000_0000_0001;
        }
        j = j + 1;
    }
    assert(dd.take(k as int) =~= dd);
    let ghost m = digits_val(dd);
    if neg {
        if acc <= 0x8000_0000_0000_0000 {
            assert(acc == m);
            let v: i64 = if acc == 0x8000_0000_0000_0000 {
                i64::MIN
            } else {
                -((acc as u64) as i64)
            };
            assert(v as int == -(m as int));
            return Some((v, end));
        } else {
            assert(m > 0x8000_0000_0000_0000);
            return None;
        }
    } else {
        if acc < 0x8000_0000_0000_0000 {
            assert(acc == m);
            return Some(((acc as u64) as i64, end));
        } else {
            assert(m >= 0x8000_0000_0000_0000);
            return None;
        }
    }
}

fn parse_val(cs: &Vec<char>, i: usize) -> (r: Option<(JsonValue, usize)>)
    requires
        i <= cs@.len(),
    ensures
        ({
            let sp = p_val(cs@.skip(i as int));
            match r {
                None => sp is None,
                Some((v, j)) => sp is Some && v@ == sp.unwrap().0 && j == i + sp.unwrap().1 && i
                    < j <= cs@.len(),
            }
        }),
    decreases cs@.len() - i, 0int,
{
    let ghost s0 = cs@.skip(i as int);
    if i >= cs.len() {
        assert(s0.len() == 0);
        return None;
    }
    let c = cs[i];
    assert(s0[0] == c);
    assert(s0.len() == cs@.len() - i);
    if c == 'n' {
        if cs.len() - i >= 4 && cs[i + 1] == 'u' && cs[i + 2] == 'l' && cs[i + 3] == 'l' {
            assert(s0[1] == cs@[i + 1] && s0[2] == cs@[i + 2] && s0[3] == cs@[i + 3]);
            Some((JsonValue::Null, i + 4))
        } else {
            assert(s0.len() >= 4 ==> (s0[1] == cs@[i + 1] && s0[2] == cs@[i + 2] && s0[3] == cs@[i
                + 3]));
            None
        }
    } else if c == 't' {
        if cs.len() - i >= 4 && cs[i + 1] == 'r' && cs[i + 2] == 'u' && cs[i + 3] == 'e' {
            assert(s0[1] == cs@[i + 1] && s0[2] == cs@[i + 2] && s0[3] == cs@[i + 3]);
            Some((JsonValue::Bool(true), i + 4))
        } else {
            assert(s0.len() >= 4 ==> (s0[1] == cs@[i + 1] && s0[2] == cs@[i + 2] && s0[3] == cs@[i
                + 3]));
            None
        }
    } else if c == 'f' {
        if cs.len() - i >= 5 && cs[i + 1] == 'a' && cs[i + 2] == 'l' && cs[i + 3] == 's' && cs[i
            + 4] == 'e' {
            assert(s0[1] == cs@[i + 1] && s0[2] == cs@[i + 2] && s0[3] == cs@[i + 3] && s0[4]
                == cs@[i + 4]);
            Some((JsonValue::Bool(false), i + 5))
        } else {
            assert(s0.len() >= 5 ==> (s0[1] == cs@[i + 1] && s0[2] == cs@[i + 2] && s0[3] == cs@[i
                + 3] && s0[4] == cs@[i + 4]));
            None
        }
    } else if c == '"' {
        proof {
            lemma_skip_skip(cs@, i as int, 1);
        }
        match parse_str_body(cs, i + 1) {
            None => None,
            Some((t, j)) => Some((JsonValue::Str(chars_to_string(t)), j)),
        }
    } else if c == '[' {
        if cs.len() - i >= 2 && cs[i + 1] == ']' {
            assert(s0[1] == cs@[i + 1]);
            let es: Vec<JsonValue> = Vec::new();
            proof {
                assert(jvals_of(es@) =~= Seq::<JVal>::empty());
            }
            Some((JsonValue::Arr(es), i + 2))
        } else {
            assert(s0.len() >= 2 ==> s0[1] == cs@[i + 1]);
            proof {
                lemma_skip_skip(cs@, i as int, 1);
            }
            match parse_elems(cs, i + 1) {
                None => None,
                Some((es, j)) => Some((JsonValue::Arr(es), j)),
            }
        }
    } else if c == '{' {
        if cs.len() - i >= 2 && cs[i + 1] == '}' {
            assert(s0[1] == cs@[i + 1]);
            let ms: Vec<(String, JsonValue)> = Vec::new();
            proof {
                assert(jmembers_of(ms@) =~= Seq::<(Seq<char>, JVal)>::empty());
            }
            Some((JsonValue::Obj(ms), i + 2))
        } else {
            assert(s0.len() >= 2 ==> s0[1] == cs@[i + 1]);
            proof {
                lemma_skip_skip(cs@, i as int, 1);
            }
            match parse_members(cs, i + 1) {
                None => None,
                Some((ms, j)) => Some((JsonValue::Obj(ms), j)),
            }
        }
    } else {
        let u = c as u32;
        if c == '-' || (48 <= u && u <= 57) {
            match parse_int(cs, i) {
                None => None,
                Some((v, j)) => Some((JsonValue::Int(v), j)),
            }
        } else {
            None
        }
    }
}

fn parse_elems(cs: &Vec<char>, i: usize) -> (r: Option<(Vec<JsonValue>, usize)>)
    requires
        i <= cs@.len(),
    ensures
        ({
            let sp = p_elems(cs@.skip(i as int));
            match r {
                None => sp is None,
                Some((es, j)) => sp is Some && jvals_of(es@) == sp.unwrap().0 && j == i
                    + sp.unwrap().1 && i < j <= cs@.len(),
            }
        }),
    decreases cs@.len() - i, 1int,
{
    let ghost s0 = cs@.skip(i as int);
    match parse_val(cs, i) {
        None => None,
        Some((v, j1)) => {
            assert(j1 - i < s0.len() <==> j1 < cs@.len());
            if j1 < cs.len() && cs[j1] == ',' {
                assert(s0[(j1 - i) as int] == cs@[j1 as int]);
                proof {
                    lemma_skip_skip(cs@, i as int, (j1 + 1 - i) as int);
                }
                match parse_elems(cs, j1 + 1) {
                    None => None,
                    Some((rest, j2)) => {
                        let mut rest = rest;
                        let ghost rv = rest@;
                        let mut es: Vec<JsonValue> = Vec::new();
                        es.push(v);
                        es.append(&mut rest);
                        proof {
                            assert(es@[0] == v);
                            assert(es@.drop_first() =~= rv);
                            assert(jvals_of(es@) == seq![jval_of(v)] + jvals_of(rv));
                        }
                        Some((es, j2))
                    },
                }
            } else if j1 < cs.len() && cs[j1] == ']' {
                assert(s0[(j1 - i) as int] == cs@[j1 as int]);
                let mut es: Vec<JsonValue> = Vec::new();
                es.push(v);
                proof {
                    assert(es@.drop_first() =~= Seq::<JsonValue>::empty());
                    assert(jvals_of(es@.drop_first()) =~= Seq::<JVal>::empty());
                    assert(jvals_of(es@) =~= seq![jval_of(v)]);
                }
                Some((es, j1 + 1))
            } else {
                if j1 < cs.len() {
                    assert(s0[(j1 - i) as int] == cs@[j1 as int]);
                }
                None
            }
        },
    }
}

fn parse_members(cs: &Vec<char>, i: usize) -> (r: Option<(Vec<(String, JsonValue)>, usize)>)
    requires
        i <= cs@.len(),
    ensures
        ({
            let sp = p_members(cs@.skip(i as int));
            match r {
                None => sp is None,
                Some((ms, j)) => sp is Some && jmembers_of(ms@) == sp.unwrap().0 && j == i
                    + sp.unwrap().1 && i < j <= cs@.len(),
            }
        }),
    decreases cs@.len() - i, 1int,
{
    let ghost s0 = cs@.skip(i as int);
    if i >= cs.len() {
        assert(s0.len() == 0);
        return None;
    }
    assert(s0[0] == cs@[i as int]);
    if cs[i] != '"' {
        return None;
    }
    proof {
        lemma_skip_skip(cs@, i as int, 1);
    }
    match parse_str_body(cs, i + 1) {
        None => None,
        Some((kchars, jk)) => {
            assert((jk - i) < s0.len() <==> jk < cs@.len());
            if jk < cs.len() && cs[jk] == ':' {
                assert(s0[(jk - i) as int] == cs@[jk as int]);
                proof {
                    lemma_skip_skip(cs@, i as int, (jk + 1 - i) as int);
                }
                match parse_val(cs, jk + 1) {
                    None => None,
                    Some((v, jv)) => {
                        assert((jv - i) < s0.len() <==> jv < cs@.len());
                        if jv < cs.len() && cs[jv] == ',' {
                            assert(s0[(jv - i) as int] == cs@[jv as int]);
                            proof {
                                lemma_skip_skip(cs@, i as int, (jv + 1 - i) as int);
                            }
                            match parse_members(cs, jv + 1) {
                                None => None,
                                Some((rest, j2)) => {
                                    let key = chars_to_string(kchars);
                                    let ghost kview = key@;
                                    let mut rest = rest;
                                    let ghost rv = rest@;
                                    let mut ms: Vec<(String, JsonValue)> = Vec::new();
                                    ms.push((key, v));
                                    ms.append(&mut rest);
                                    proof {
                                        assert(ms@[0].0@ == kview && ms@[0].1 == v);
                                        assert(ms@.drop_first() =~= rv);
                                        assert(jmembers_of(ms@) == seq![(kview, jval_of(v))]
                                            + jmembers_of(rv));
                                    }
                                    Some((ms, j2))
                                },
                            }
                        } else if jv < cs.len() && cs[jv] == '}' {
                            assert(s0[(jv - i) as int] == cs@[jv as int]);
                            let key = chars_to_string(kchars);
                            let mut ms: Vec<(String, JsonValue)> = Vec::new();
                            ms.push((key, v));
                            proof {
                                assert(ms@.drop_first() =~= Seq::<(String, JsonValue)>::empty());
                                assert(jmembers_of(ms@.drop_first()) =~= Seq::<
                                    (Seq<char>, JVal),
                                >::empty());
                                assert(jmembers_of(ms@) =~= seq![(kchars@, jval_of(v))]);
                            }
                            Some((ms, jv + 1))
                        } else {
                            if jv < cs.len() {
                                assert(s0[(jv - i) as int] == cs@[jv as int]);
                            }
                            None
                        }
                    },
                }
            } else {
                if jk < cs.len() {
                    assert(s0[(jk - i) as int] == cs@[jk as int]);
                }
                None
            }
        },
    }
}

// ---------------------------------------------------------------------------
// Round trip: the reader inverts the printer.
// ---------------------------------------------------------------------------

/// A model value the codec can represent exactly: every integer in it fits
/// the signed 64-bit range. The view of every executable [`JsonValue`] is of
/// this kind.
pub open spec fn jval_wf(v: JVal) -> bool
    decreases v, 1int,
{
    match v {
        JVal::Int(i) => -0x8000_0000_0000_0000 <= i < 0x8000_0000_0000_0000,
        JVal::Arr(es) => jvals_wf(es),
        JVal::Obj(ms) => jmembers_wf(ms),
        _ => true,
    }
}

pub open spec fn jvals_wf(es: Seq<JVal>) -> bool
    decreases es, 0int,
{
    es.len() == 0 || (jval_wf(es[0]) && jvals_wf(es.drop_first()))
}

pub open spec fn jmembers_wf(ms: Seq<(Seq<char>, JVal)>) -> bool
    decreases ms, 0int,
{
    ms.len() == 0 || (jval_wf(ms[0].1) && jmembers_wf(ms.drop_first()))
}

pub proof fn lemma_jmembers_wf_concat(a: Seq<(Seq<char>, JVal)>, b: Seq<(Seq<char>, JVal)>)
    requires
        jmembers_wf(a),
        jmembers_wf(b),
    ensures
        jmembers_wf(a + b),
    decreases a.len(),
{
    if a.len() == 0 {
        assert(a + b =~= b);
    } else {
        assert((a + b)[0] == a[0]);
        assert((a + b).drop_first() =~= a.drop_first() + b);
        lemma_jmembers_wf_concat(a.drop_first(), b);
    }
}

/// The view of an executable value is always well formed.
pub proof fn lemma_jval_of_wf(v: JsonValue)
    ensures
        jval_wf(jval_of(v)),
    decreases v, 1int,
{
    match v {
        JsonValue::Arr(es) => {
            lemma_jvals_of_wf(es@);
        },
        JsonValue::Obj(ms) => {
            lemma_jmembers_of_wf(ms@);
        },
        _ => {},
    }
}

proof fn lemma_jvals_of_wf(es: Seq<JsonValue>)
    ensures
        jvals_wf(jvals_of(es)),
    decreases es, 0int,
{
    if es.len() > 0 {
        lemma_jval_of_wf(es[0]);
        lemma_jvals_of_wf(es.drop_first());
        assert(jvals_of(es)[0] == jval_of(es[0]));
        assert(jvals_of(es).drop_first() =~= jvals_of(es.drop_first()));
    }
}

pub proof fn lemma_jmembers_of_wf(ms: Seq<(String, JsonValue)>)
    ensures
        jmembers_wf(jmembers_of(ms)),
    decreases ms, 0int,
{
    if ms.len() > 0 {
        lemma_jval_of_wf(ms[0].1);
        lemma_jmembers_of_wf(ms.drop_first());
        assert(jmembers_of(ms)[0] == (ms[0].0@, jval_of(ms[0].1)));
        assert(jmembers_of(ms).drop_first() =~= jmembers_of(ms.drop_first()));
    }
}

/// What may follow a printed value without changing how it is read: anything
/// that does not extend a digit run.
pub open spec fn sep_follows(rest: Seq<char>) -> bool {
    rest.len() == 0 || !is_json_digit(rest[0])
}

proof fn lemma_digit_char_val(d: int)
    requires
        0 <= d < 10,
    ensures
        digit_char(d) as u32 == d + 48,
        is_json_digit(digit_char(d)),
{
}

proof fn lemma_hex_char_val(d: int)
    requires
        0 <= d < 16,
    ensures
        is_hex_digit(hex_char(d)),
        hex_digit_val(hex_char(d)) == d,
{
    if d < 10 {
        lemma_digit_char_val(d);
    }
}

proof fn lemma_ser_nat_props(n: nat)
    ensures
        ser_nat(n).len() >= 1,
        forall|i: int| 0 <= i < ser_nat(n).len() ==> is_json_digit(ser_nat(n)[i]),
        n >= 1 ==> ser_nat(n)[0] != '0',
        n < 10 ==> ser_nat(n).len() == 1,
        n >= 10 ==> ser_nat(n).len() >= 2,
    decreases n,
{
    if n < 10 {
        lemma_digit_char_val(n as int);
        if n >= 1 {
            assert(digit_char(n as int) as u32 == n + 48);
            assert(('0' as u32) == 48);
        }
    } else {
        lemma_ser_nat_props(n / 10);
        lemma_digit_char_val((n % 10) as int);
        assert(ser_nat(n) == ser_nat(n / 10) + seq![digit_char((n % 10) as int)]);
        assert(ser_nat(n)[0] == ser_nat(n / 10)[0]);
        assert(forall|i: int|
            0 <= i < ser_nat(n / 10).len() ==> ser_nat(n)[i] == ser_nat(n / 10)[i]);
    }
}

proof fn lemma_digit_run_concat(d: Seq<char>, rest: Seq<char>)
    requires
        forall|i: int| 0 <= i < d.len() ==> is_json_digit(d[i]),
        sep_follows(rest),
    ensures
        digit_run(d + rest) == d.len(),
    decreases d.len(),
{
    if d.len() == 0 {
        assert(d + rest =~= rest);
        if rest.len() > 0 {
            assert(!is_json_digit(rest[0]));
        }
    } else {
        assert((d + rest)[0] == d[0]);
        assert((d + rest).skip(1) =~= d.drop_first() + rest);
        lemma_digit_run_concat(d.drop_first(), rest);
    }
}

proof fn lemma_digits_val_ser_nat(n: nat)
    ensures
        digits_val(ser_nat(n)) == n,
    decreases n,
{
    lemma_digit_char_val((n % 10) as int);
    if n < 10 {
        lemma_digit_char_val(n as int);
        assert(ser_nat(n) == seq![digit_char(n as int)]);
        assert(ser_nat(n).drop_last() =~= Seq::<char>::empty());
        assert(digits_val(Seq::<char>::empty()) == 0);
        assert(digits_val(ser_nat(n)) == n);
    } else {
        lemma_digits_val_ser_nat(n / 10);
        assert(ser_nat(n) == ser_nat(n / 10) + seq![digit_char((n % 10) as int)]);
        assert(ser_nat(n).drop_last() =~= ser_nat(n / 10));
        assert(ser_nat(n).last() == digit_char((n % 10) as int));
        assert(digits_val(ser_nat(n)) == digits_val(ser_nat(n / 10)) * 10 + (n % 10));
    }
}

proof fn lemma_parse_ser_int(i: int, rest: Seq<char>)
    requires
        sep_follows(rest),
        -0x8000_0000_0000_0000 <= i < 0x8000_0000_0000_0000,
    ensures
        p_int(ser_int(i) + rest) == Some((i, ser_int(i).len() as nat)),
{
    if i >= 0 {
        let d = ser_nat(i as nat);
        let s = ser_int(i) + rest;
        assert(s =~= d + rest);
        lemma_ser_nat_props(i as nat);
        lemma_digit_run_concat(d, rest);
        assert(s[0] == d[0]);
        assert(is_json_digit(s[0]));
        assert(('-' as u32) == 45);
        assert(s[0] != '-');
        let k = digit_run(s);
        assert(k == d.len());
        assert(k >= 1);
        if k >= 2 {
            assert(i >= 10 ==> d[0] != '0');
            assert(d.len() >= 2 ==> i >= 10) by {
                if i < 10 {
                    assert(d.len() == 1);
                }
            }
            assert(s[0] != '0');
        }
        assert(s.take(k as int) =~= d);
        lemma_digits_val_ser_nat(i as nat);
        assert(digits_val(s.take(k as int)) == i);
    } else {
        let m = (-i) as nat;
        let d = ser_nat(m);
        let s = ser_int(i) + rest;
        assert(ser_int(i) == seq!['-'] + d);
        assert(s =~= seq!['-'] + d + rest);
        assert(s[0] == '-');
        lemma_ser_nat_props(m);
        assert(s.skip(1) =~= d + rest);
        lemma_digit_run_concat(d, rest);
        let k = digit_run(s.skip(1));
        assert(k == d.len());
        assert(k >= 1);
        if k >= 2 {
            assert(m >= 10) by {
                if m < 10 {
                    assert(d.len() == 1);
                }
            }
            assert(s[1] == d[0]);
            assert(s[1] != '0');
        }
        assert(s.skip(1).take(k as int) =~= d);
        lemma_digits_val_ser_nat(m);
        assert(digits_val(s.skip(1).take(k as int)) == m);
        assert(m <= 0x8000_0000_0000_0000);
        assert(p_int(s) == Some((-(m as int), (1 + k) as nat)));
        assert(-(m as int) == i);
        assert(ser_int(i).len() == 1 + d.len());
    }
}

proof fn lemma_parse_ser_str_body(t: Seq<char>, rest: Seq<char>)
    ensures
        p_str_body(ser_str_body(t) + seq!['"'] + rest) == Some(
            (t, (ser_str_body(t).len() + 1) as nat),
        ),
    decreases t.len(),
{
    let s = ser_str_body(t) + seq!['"'] + rest;
    if t.len() == 0 {
        assert(s =~= seq!['"'] + rest);
        assert(s[0] == '"');
        assert(p_str_body(s) == Some((Seq::<char>::empty(), 1nat)));
        assert(t =~= Seq::<char>::empty());
    } else {
        let c = t[0];
        let t1 = t.drop_first();
        let s1 = ser_str_body(t1) + seq!['"'] + rest;
        lemma_parse_ser_str_body(t1, rest);
        assert(ser_str_body(t) == esc(c) + ser_str_body(t1));
        assert(s =~= esc(c) + s1);
        if c == '"' {
            assert(esc(c) == seq!['\\', '"']);
            assert(s[0] == '\\' && s[1] == '"');
            assert(('\\' as u32) == 92 && ('"' as u32) == 34);
            assert(s.len() >= 2);
            assert(unescape1('"') == Some('"'));
            assert(s.skip(2) =~= s1);
            assert(p_str_body(s) == Some((seq![c] + t1, (2 + p_str_body(s1).unwrap().1) as nat)));
            assert(seq![c] + t1 =~= t);
        } else if c == '\\' {
            assert(esc(c) == seq!['\\', '\\']);
            assert(s[0] == '\\' && s[1] == '\\');
            assert(s.len() >= 2);
            assert(s[1] != 'u') by {
                assert(('u' as u32) == 117 && ('\\' as u32) == 92);
            }
            assert(unescape1('\\') == Some('\\'));
            assert(s.skip(2) =~= s1);
            assert(p_str_body(s) == Some((seq![c] + t1, (2 + p_str_body(s1).unwrap().1) as nat)));
            assert(seq![c] + t1 =~= t);
        } else if (c as u32) < 0x20 {
            let hi = (c as u32) as int / 16;
            let lo = (c as u32) as int % 16;
            assert(esc(c) == seq!['\\', 'u', '0', '0', hex_char(hi), hex_char(lo)]);
            assert(s[0] == '\\' && s[1] == 'u');
            assert(s[2] == '0' && s[3] == '0' && s[4] == hex_char(hi) && s[5] == hex_char(lo));
            assert(s.len() >= 6);
            lemma_hex_char_val(hi);
            lemma_hex_char_val(lo);
            assert(is_hex_digit('0') && hex_digit_val('0') == 0) by {
                assert(('0' as u32) == 48);
            }
            let cp = hex_digit_val(s[2]) * 4096 + hex_digit_val(s[3]) * 256 + hex_digit_val(s[4])
                * 16 + hex_digit_val(s[5]);
            assert(cp == hi * 16 + lo);
            assert(cp == (c as u32));
            assert(cp < 0x80);
            vstd::utf8::char_u32_cast(c, cp as u32);
            assert(((cp as u32) as char) == c);
            assert(s.skip(6) =~= s1);
            assert(p_str_body(s) == Some((seq![c] + t1, (6 + p_str_body(s1).unwrap().1) as nat)));
            assert(seq![c] + t1 =~= t);
        } else {
            assert(esc(c) == seq![c]);
            assert(s[0] == c);
            assert(s.skip(1) =~= s1);
            assert(p_str_body(s) == Some((seq![c] + t1, (1 + p_str_body(s1).unwrap().1) as nat)));
            assert(seq![c] + t1 =~= t);
        }
    }
}

/// Every printed value starts with a character that opens a value; none of
/// the closing or separating characters can stand first.
pub open spec fn is_value_start(c: char) -> bool {
    c == 'n' || c == 't' || c == 'f' || c == '"' || c == '[' || c == '{' || c == '-'
        || is_json_digit(c)
}

proof fn lemma_ser_val_first(v: JVal)
    ensures
        ser_val(v).len() >= 1,
        is_value_start(ser_val(v)[0]),
{
    match v {
        JVal::Int(i) => {
            if i >= 0 {
                lemma_ser_nat_props(i as nat);
            } else {
                lemma_ser_nat_props((-i) as nat);
                assert(ser_val(v)[0] == '-');
            }
        },
        JVal::Arr(es) => {
            assert(ser_val(v)[0] == '[');
        },
        JVal::Obj(ms) => {
            assert(ser_val(v)[0] == '{');
        },
        _ => {},
    }
}

#[verifier::rlimit(80)]
pub proof fn lemma_parse_ser_val(v: JVal, rest: Seq<char>)
    requires
        jval_wf(v),
        sep_follows(rest),
    ensures
        p_val(ser_val(v) + rest) == Some((v, ser_val(v).len() as nat)),
    decreases v, 1int,
{
    let s = ser_val(v) + rest;
    lemma_ser_val_first(v);
    assert(s[0] == ser_val(v)[0]);
    match v {
        JVal::Null => {
            assert(s[0] == 'n' && s[1] == 'u' && s[2] == 'l' && s[3] == 'l');
            assert(s.len() >= 4);
        },
        JVal::Bool(b) => {
            if b {
                assert(s[0] == 't' && s[1] == 'r' && s[2] == 'u' && s[3] == 'e');
                assert(s.len() >= 4);
            } else {
                assert(s[0] == 'f' && s[1] == 'a' && s[2] == 'l' && s[3] == 's' && s[4] == 'e');
                assert(s.len() >= 5);
            }
        },
        JVal::Int(i) => {
            lemma_parse_ser_int(i, rest);
            assert(s =~= ser_int(i) + rest);
            assert(s[0] == '-' || is_json_digit(s[0]));
            assert(s[0] != 'n' && s[0] != 't' && s[0] != 'f' && s[0] != '"' && s[0] != '['
                && s[0] != '{') by {
                assert(('n' as u32) == 110 && ('t' as u32) == 116 && ('f' as u32) == 102 && ('"'
                    as u32) == 34 && ('[' as u32) == 91 && ('{' as u32) == 123 && ('-' as u32)
                    == 45);
            }
        },
        JVal::Str(t) => {
            assert(s[0] == '"');
            assert(s.skip(1) =~= ser_str_body(t) + seq!['"'] + rest);
            lemma_parse_ser_str_body(t, rest);
            assert(p_val(s) == Some((JVal::Str(t), (1 + ser_str_body(t).len() + 1) as nat)));
            assert(ser_val(v).len() == ser_str_body(t).len() + 2);
        },
        JVal::Arr(es) => {
            assert(s[0] == '[');
            if es.len() == 0 {
                assert(ser_elems(es) =~= Seq::<char>::empty());
                assert(s =~= seq!['[', ']'] + rest);
                assert(s.len() >= 2 && s[1] == ']');
                assert(es =~= Seq::<JVal>::empty());
                assert(p_val(s) == Some((JVal::Arr(Seq::empty()), 2nat)));
                assert(ser_val(v).len() == 2);
            } else {
                lemma_ser_val_first(es[0]);
                assert(ser_elems(es).len() >= 1) by {
                    if es.len() == 1 {
                        assert(ser_elems(es) == ser_val(es[0]));
                    }
                }
                assert(ser_elems(es)[0] == ser_val(es[0])[0]);
                assert(ser_val(v) == seq!['['] + ser_elems(es) + seq![']']);
                assert(ser_val(v)[1] == ser_elems(es)[0]);
                assert(s[1] == ser_elems(es)[0]);
                assert(is_value_start(s[1]));
                assert(s[1] != ']') by {
                    assert((']' as u32) == 93);
                    assert(('n' as u32) == 110 && ('t' as u32) == 116 && ('f' as u32) == 102 && (
                    '"' as u32) == 34 && ('[' as u32) == 91 && ('{' as u32) == 123 && ('-' as u32)
                        == 45);
                }
                assert(s.len() >= 2);
                assert(s.skip(1) =~= ser_elems(es) + seq![']'] + rest);
                lemma_parse_ser_elems(es, rest);
                assert(p_val(s) == Some((JVal::Arr(es), (1 + ser_elems(es).len() + 1) as nat)));
                assert(ser_val(v).len() == ser_elems(es).len() + 2);
            }
        },
        JVal::Obj(ms) => {
            assert(s[0] == '{');
            if ms.len() == 0 {
                assert(ser_members(ms) =~= Seq::<char>::empty());
                assert(s =~= seq!['{', '}'] + rest);
                assert(s.len() >= 2 && s[1] == '}');
                assert(ms =~= Seq::<(Seq<char>, JVal)>::empty());
                assert(p_val(s) == Some((JVal::Obj(Seq::empty()), 2nat)));
                assert(ser_val(v).len() == 2);
            } else {
                assert(ser_members(ms).len() >= 1 && ser_members(ms)[0] == '"') by {
                    assert(ser_str(ms[0].0)[0] == '"');
                    if ms.len() == 1 {
                        assert(ser_members(ms) == ser_str(ms[0].0) + seq![':'] + ser_val(
                            ms[0].1,
                        ));
                    }
                }
                assert(ser_val(v) == seq!['{'] + ser_members(ms) + seq!['}']);
                assert(ser_val(v)[1] == ser_members(ms)[0]);
                assert(s[1] == '"');
                assert(s[1] != '}') by {
                    assert(('}' as u32) == 125 && ('"' as u32) == 34);
                }
                assert(s.len() >= 2);
                assert(s.skip(1) =~= ser_members(ms) + seq!['}'] + rest);
                lemma_parse_ser_members(ms, rest);
                assert(p_val(s) == Some((JVal::Obj(ms), (1 + ser_members(ms).len() + 1) as nat)));
                assert(ser_val(v).len() == ser_members(ms).len() + 2);
            }
        },
    }
}

#[verifier::rlimit(60)]
proof fn lemma_parse_ser_elems(es: Seq<JVal>, rest: Seq<char>)
    requires
        jvals_wf(es),
        es.len() >= 1,
        sep_follows(rest),
    ensures
        p_elems(ser_elems(es) + seq![']'] + rest) == Some(
            (es, (ser_elems(es).len() + 1) as nat),
        ),
    decreases es, 0int,
{
    let s = ser_elems(es) + seq![']'] + rest;
    if es.len() == 1 {
        assert(ser_elems(es) == ser_val(es[0]));
        assert(s =~= ser_val(es[0]) + (seq![']'] + rest));
        assert(sep_follows(seq![']'] + rest)) by {
            assert((seq![']'] + rest)[0] == ']');
            assert((']' as u32) == 93);
        }
        lemma_parse_ser_val(es[0], seq![']'] + rest);
        let n = ser_val(es[0]).len();
        assert(p_val(s) == Some((es[0], n as nat)));
        assert(n < s.len());
        assert(s[n as int] == ']');
        assert((',' as u32) == 44 && (']' as u32) == 93);
        assert(p_elems(s) == Some((seq![es[0]], (n + 1) as nat)));
        assert(seq![es[0]] =~= es);
    } else {
        let tail = es.drop_first();
        assert(ser_elems(es) == ser_val(es[0]) + seq![','] + ser_elems(tail));
        let follow = seq![','] + ser_elems(tail) + seq![']'] + rest;
        assert(s =~= ser_val(es[0]) + follow);
        assert(sep_follows(follow)) by {
            assert(follow[0] == ',');
            assert((',' as u32) == 44);
        }
        lemma_parse_ser_val(es[0], follow);
        let n = ser_val(es[0]).len();
        assert(p_val(s) == Some((es[0], n as nat)));
        assert(n < s.len());
        assert(s[n as int] == follow[0]);
        assert(s[n as int] == ',');
        assert(s.skip(n + 1int) =~= ser_elems(tail) + seq![']'] + rest);
        lemma_parse_ser_elems(tail, rest);
        assert(p_elems(s.skip(n + 1int)) == Some((tail, (ser_elems(tail).len() + 1) as nat)));
        assert(p_elems(s) == Some(
            (seq![es[0]] + tail, (n + 1 + ser_elems(tail).len() + 1) as nat),
        ));
        assert(seq![es[0]] + tail =~= es);
        assert(ser_elems(es).len() == n + 1 + ser_elems(tail).len());
    }
}

#[verifier::rlimit(60)]
proof fn lemma_parse_ser_members(ms: Seq<(Seq<char>, JVal)>, rest: Seq<char>)
    requires
        jmembers_wf(ms),
        ms.len() >= 1,
        sep_follows(rest),
    ensures
        p_members(ser_members(ms) + seq!['}'] + rest) == Some(
            (ms, (ser_members(ms).len() + 1) as nat),
        ),
    decreases ms, 0int,
{
    let s = ser_members(ms) + seq!['}'] + rest;
    let k = ms[0].0;
    let v = ms[0].1;
    let head = ser_str(k) + seq![':'] + ser_val(v);
    if ms.len() == 1 {
        assert(ser_members(ms) == head);
        assert(s[0] == '"');
        assert(s.skip(1) =~= ser_str_body(k) + seq!['"'] + (seq![':'] + ser_val(v) + seq!['}']
            + rest));
        lemma_parse_ser_str_body(k, seq![':'] + ser_val(v) + seq!['}'] + rest);
        let c1 = (1 + ser_str_body(k).len() + 1) as nat;
        assert(c1 == ser_str(k).len());
        assert(c1 < s.len());
        assert(s[c1 as int] == ':');
        assert(s.skip(c1 + 1int) =~= ser_val(v) + (seq!['}'] + rest));
        assert(sep_follows(seq!['}'] + rest)) by {
            assert((seq!['}'] + rest)[0] == '}');
            assert(('}' as u32) == 125);
        }
        lemma_parse_ser_val(v, seq!['}'] + rest);
        let m = ser_val(v).len();
        let c2 = (c1 + 1 + m) as nat;
        assert(c2 < s.len());
        assert(s[c2 as int] == '}');
        assert((',' as u32) == 44 && ('}' as u32) == 125);
        assert(p_members(s) == Some((seq![(k, v)], (c2 + 1) as nat)));
        assert(seq![(k, v)] =~= ms);
        assert(ser_members(ms).len() + 1 == c2 + 1);
    } else {
        let tail = ms.drop_first();
        assert(ser_members(ms) == head + seq![','] + ser_members(tail));
        assert(s[0] == '"');
        assert(s.skip(1) =~= ser_str_body(k) + seq!['"'] + (seq![':'] + ser_val(v) + seq![',']
            + ser_members(tail) + seq!['}'] + rest));
        lemma_parse_ser_str_body(k, seq![':'] + ser_val(v) + seq![','] + ser_members(tail)
            + seq!['}'] + rest);
        let c1 = (1 + ser_str_body(k).len() + 1) as nat;
        assert(c1 == ser_str(k).len());
        assert(c1 < s.len());
        assert(s[c1 as int] == ':');
        let follow = seq![','] + ser_members(tail) + seq!['}'] + rest;
        assert(s.skip(c1 + 1int) =~= ser_val(v) + follow);
        assert(sep_follows(follow)) by {
            assert(follow[0] == ',');
            assert((',' as u32) == 44);
        }
        lemma_parse_ser_val(v, follow);
        let m = ser_val(v).len();
        let c2 = (c1 + 1 + m) as nat;
        assert(c2 < s.len());
        assert(s[c2 as int] == follow[0]);
        assert(s[c2 as int] == ',');
        assert(s.skip(c2 + 1int) =~= ser_members(tail) + seq!['}'] + rest);
        lemma_parse_ser_members(tail, rest);
        assert(p_members(s.skip(c2 + 1int)) == Some(
            (tail, (ser_members(tail).len() + 1) as nat),
        ));
        assert(p_members(s) == Some(
            (seq![(k, v)] + tail, (c2 + 1 + ser_members(tail).len() + 1) as nat),
        ));
        assert(seq![(k, v)] + tail =~= ms);
        assert(ser_members(ms).len() == c2 + 1 + ser_members(tail).len());
    }
}

/// The round-trip theorem of the codec: reading the printed form of any value
/// yields that value again.
pub proof fn lemma_json_round_trip(v: JVal)
    requires
        jval_wf(v),
    ensures
        p_doc(ser_val(v)) == Some(v),
{
    lemma_parse_ser_val(v, Seq::empty());
    assert(ser_val(v) + Seq::<char>::empty() =~= ser_val(v));
}

/// Read one JSON document from `cs`; `None` when the text is not a single
/// well-formed value.
pub fn parse_text(cs: &Vec<char>) -> (r: Option<JsonValue>)
    ensures
        match r {
            None => p_doc(cs@) is None,
            Some(v) => p_doc(cs@) is Some && v@ == p_doc(cs@).unwrap(),
        },
{
    proof {
        assert(cs@.skip(0) =~= cs@);
    }
    match parse_val(cs, 0) {
        None => None,
        Some((v, j)) => if j == cs.len() {
            Some(v)
        } else {
            None
        },
    }
}

} // verus!
