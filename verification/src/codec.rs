//! The project's serialized form, and the proof that it round-trips.
//!
//! A project is written as a character string: the tag `P`, then each of
//! the three tables prefixed by its entry count. Numerals are decimal and
//! 64-bit — a count or string length larger than `u64::MAX`, or an integer
//! outside `i64`, is not valid in the format. A string is its character
//! length, `:`, and its characters, so any path, name or value survives
//! unescaped. `spec_serialize` and `spec_deserialize` are the authoritative
//! definitions; the round trip law says deserializing a serialized project
//! gives back the same value.

use vstd::prelude::*;

use crate::lexer::{lemma_scan_digits_end, scan_digits_end};
use crate::numerals::{
    all_digits, dec_nat, digit_val, digits_value, is_digit, lemma_dec_nat_digits,
    lemma_digits_value_dec_nat, lemma_digits_value_nonneg,
};
use crate::project::{ClipModel, ProjectModel};
use crate::values::{IntrinsicKind, ValueModel};

verus! {

/// A decimal numeral with its `:` terminator.
pub open spec fn ser_nat(n: nat) -> Seq<char> {
    dec_nat(n) + seq![':']
}

/// A signed integer: an explicit sign, then the magnitude numeral.
pub open spec fn ser_int(v: int) -> Seq<char> {
    if v >= 0 {
        seq!['+'] + ser_nat(v as nat)
    } else {
        seq!['-'] + ser_nat((-v) as nat)
    }
}

/// A string: its character length, `:`, and its characters.
pub open spec fn ser_str(t: Seq<char>) -> Seq<char> {
    ser_nat(t.len()) + t
}

/// The tag character of an intrinsic.
pub open spec fn kind_char(k: IntrinsicKind) -> char {
    match k {
        IntrinsicKind::Log => 'g',
        IntrinsicKind::LoadClip => 'l',
        IntrinsicKind::CreateVariable => 'c',
    }
}

/// A value: a tag character, then the payload.
pub open spec fn ser_value(v: ValueModel) -> Seq<char> {
    match v {
        ValueModel::Undefined => seq!['u'],
        ValueModel::Num(n) => seq!['n'] + ser_int(n),
        ValueModel::Str(s) => seq!['s'] + ser_str(s),
        ValueModel::Handle(p) => seq!['h'] + ser_str(p),
        ValueModel::Intrinsic(k) => seq!['f', kind_char(k)],
    }
}

/// A clip: start time, length, path.
pub open spec fn ser_clip(c: ClipModel) -> Seq<char> {
    ser_int(c.start_time) + ser_int(c.length) + ser_str(c.path)
}

/// A variable binding: name, then value.
pub open spec fn ser_binding(b: (Seq<char>, ValueModel)) -> Seq<char> {
    ser_str(b.0) + ser_value(b.1)
}

pub open spec fn ser_paths_from(ps: Seq<Seq<char>>, i: int) -> Seq<char>
    decreases ps.len() - i,
    when 0 <= i <= ps.len()
{
    if i >= ps.len() {
        Seq::empty()
    } else {
        ser_str(ps[i]) + ser_paths_from(ps, i + 1)
    }
}

pub open spec fn ser_clips_from(cs: Seq<ClipModel>, i: int) -> Seq<char>
    decreases cs.len() - i,
    when 0 <= i <= cs.len()
{
    if i >= cs.len() {
        Seq::empty()
    } else {
        ser_clip(cs[i]) + ser_clips_from(cs, i + 1)
    }
}

pub open spec fn ser_vars_from(vs: Seq<(Seq<char>, ValueModel)>, i: int) -> Seq<char>
    decreases vs.len() - i,
    when 0 <= i <= vs.len()
{
    if i >= vs.len() {
        Seq::empty()
    } else {
        ser_binding(vs[i]) + ser_vars_from(vs, i + 1)
    }
}

/// The serialized form of a whole project.
pub open spec fn spec_serialize(p: ProjectModel) -> Seq<char> {
    seq!['P'] + ser_nat(p.paths.len()) + ser_paths_from(p.paths, 0) + ser_nat(p.timeline.len())
        + ser_clips_from(p.timeline, 0) + ser_nat(p.variables.len()) + ser_vars_from(
        p.variables,
        0,
    )
}

/// Reads a numeral and its `:`; values above `u64::MAX` are invalid.
pub open spec fn parse_nat(s: Seq<char>) -> Option<(int, Seq<char>)> {
    let k = scan_digits_end(s, 0);
    if k == 0 || k >= s.len() || s[k] != ':' {
        None
    } else {
        let v = digits_value(s.take(k));
        if 0 <= v <= u64::MAX {
            Some((v, s.skip(k + 1)))
        } else {
            None
        }
    }
}

/// Reads a signed integer; values outside `i64` are invalid.
pub open spec fn parse_int(s: Seq<char>) -> Option<(int, Seq<char>)> {
    if s.len() == 0 {
        None
    } else if s[0] == '+' {
        match parse_nat(s.skip(1)) {
            None => None,
            Some((v, rest)) => if v > i64::MAX {
                None
            } else {
                Some((v, rest))
            },
        }
    } else if s[0] == '-' {
        match parse_nat(s.skip(1)) {
            None => None,
            Some((v, rest)) => if -v < i64::MIN {
                None
            } else {
                Some((-v, rest))
            },
        }
    } else {
        None
    }
}

/// Reads a length-prefixed string.
pub open spec fn parse_str(s: Seq<char>) -> Option<(Seq<char>, Seq<char>)> {
    match parse_nat(s) {
        None => None,
        Some((v, rest)) => if v > rest.len() {
            None
        } else {
            Some((rest.take(v), rest.skip(v)))
        },
    }
}

/// Reads a tagged value.
pub open spec fn parse_value(s: Seq<char>) -> Option<(ValueModel, Seq<char>)> {
    if s.len() == 0 {
        None
    } else if s[0] == 'u' {
        Some((ValueModel::Undefined, s.skip(1)))
    } else if s[0] == 'n' {
        match parse_int(s.skip(1)) {
            None => None,
            Some((v, rest)) => Some((ValueModel::Num(v), rest)),
        }
    } else if s[0] == 's' {
        match parse_str(s.skip(1)) {
            None => None,
            Some((t, rest)) => Some((ValueModel::Str(t), rest)),
        }
    } else if s[0] == 'h' {
        match parse_str(s.skip(1)) {
            None => None,
            Some((t, rest)) => Some((ValueModel::Handle(t), rest)),
        }
    } else if s[0] == 'f' {
        if s.len() < 2 {
            None
        } else if s[1] == 'g' {
            Some((ValueModel::Intrinsic(IntrinsicKind::Log), s.skip(2)))
        } else if s[1] == 'l' {
            Some((ValueModel::Intrinsic(IntrinsicKind::LoadClip), s.skip(2)))
        } else if s[1] == 'c' {
            Some((ValueModel::Intrinsic(IntrinsicKind::CreateVariable), s.skip(2)))
        } else {
            None
        }
    } else {
        None
    }
}

/// Reads one clip.
pub open spec fn parse_clip(s: Seq<char>) -> Option<(ClipModel, Seq<char>)> {
    match parse_int(s) {
        None => None,
        Some((start_time, r1)) => match parse_int(r1) {
            None => None,
            Some((length, r2)) => match parse_str(r2) {
                None => None,
                Some((path, r3)) => Some((ClipModel { start_time, length, path }, r3)),
            },
        },
    }
}

/// Reads one variable binding.
pub open spec fn parse_binding(s: Seq<char>) -> Option<((Seq<char>, ValueModel), Seq<char>)> {
    match parse_str(s) {
        None => None,
        Some((name, r1)) => match parse_value(r1) {
            None => None,
            Some((v, r2)) => Some(((name, v), r2)),
        },
    }
}

pub open spec fn parse_strs(s: Seq<char>, cnt: int, acc: Seq<Seq<char>>) -> Option<
    (Seq<Seq<char>>, Seq<char>),
>
    decreases cnt,
    when cnt >= 0
{
    if cnt <= 0 {
        Some((acc, s))
    } else {
        match parse_str(s) {
            None => None,
            Some((t, rest)) => parse_strs(rest, cnt - 1, acc.push(t)),
        }
    }
}

pub open spec fn parse_clips(s: Seq<char>, cnt: int, acc: Seq<ClipModel>) -> Option<
    (Seq<ClipModel>, Seq<char>),
>
    decreases cnt,
    when cnt >= 0
{
    if cnt <= 0 {
        Some((acc, s))
    } else {
        match parse_clip(s) {
            None => None,
            Some((c, rest)) => parse_clips(rest, cnt - 1, acc.push(c)),
        }
    }
}

pub open spec fn parse_bindings(s: Seq<char>, cnt: int, acc: Seq<(Seq<char>, ValueModel)>) -> Option<
    (Seq<(Seq<char>, ValueModel)>, Seq<char>),
>
    decreases cnt,
    when cnt >= 0
{
    if cnt <= 0 {
        Some((acc, s))
    } else {
        match parse_binding(s) {
            None => None,
            Some((b, rest)) => parse_bindings(rest, cnt - 1, acc.push(b)),
        }
    }
}

/// Reads a whole project; trailing characters are invalid.
pub open spec fn spec_deserialize(s: Seq<char>) -> Option<ProjectModel> {
    if s.len() == 0 || s[0] != 'P' {
        None
    } else {
        match parse_nat(s.skip(1)) {
            None => None,
            Some((np, r1)) => match parse_strs(r1, np, Seq::empty()) {
                None => None,
                Some((paths, r2)) => match parse_nat(r2) {
                    None => None,
                    Some((nt, r3)) => match parse_clips(r3, nt, Seq::empty()) {
                        None => None,
                        Some((timeline, r4)) => match parse_nat(r4) {
                            None => None,
                            Some((nv, r5)) => match parse_bindings(r5, nv, Seq::empty()) {
                                None => None,
                                Some((vars, r6)) => if r6.len() == 0 {
                                    Some(ProjectModel { paths, timeline, variables: vars })
                                } else {
                                    None
                                },
                            },
                        },
                    },
                },
            },
        }
    }
}

/// `v` fits the format's 64-bit signed integers.
pub open spec fn int_in_range(v: int) -> bool {
    i64::MIN <= v <= i64::MAX
}

/// The numbers and lengths of `v` fit the format.
pub open spec fn value_in_range(v: ValueModel) -> bool {
    match v {
        ValueModel::Num(n) => int_in_range(n),
        ValueModel::Str(s) => s.len() <= u64::MAX,
        ValueModel::Handle(p) => p.len() <= u64::MAX,
        _ => true,
    }
}

pub open spec fn clip_in_range(c: ClipModel) -> bool {
    int_in_range(c.start_time) && int_in_range(c.length) && c.path.len() <= u64::MAX
}

/// The numbers, lengths and counts of `p` fit the format's 64-bit
/// numerals. Every project held in the executable representation does.
pub open spec fn project_in_range(p: ProjectModel) -> bool {
    &&& p.paths.len() <= u64::MAX
    &&& p.timeline.len() <= u64::MAX
    &&& p.variables.len() <= u64::MAX
    &&& forall|i: int| 0 <= i < p.paths.len() ==> (#[trigger] p.paths[i]).len() <= u64::MAX
    &&& forall|i: int| 0 <= i < p.timeline.len() ==> clip_in_range(#[trigger] p.timeline[i])
    &&& forall|i: int|
        0 <= i < p.variables.len() ==> (#[trigger] p.variables[i]).0.len() <= u64::MAX
            && value_in_range(p.variables[i].1)
}

proof fn lemma_scan_digits_exact(s: Seq<char>, k: int)
    requires
        0 <= k <= s.len(),
        forall|m: int| 0 <= m < k ==> is_digit(#[trigger] s[m]),
        k < s.len() ==> !is_digit(s[k]),
    ensures
        scan_digits_end(s, 0) == k,
{
    lemma_scan_digits_exact_from(s, 0, k);
}

proof fn lemma_scan_digits_exact_from(s: Seq<char>, i: int, k: int)
    requires
        0 <= i <= k <= s.len(),
        forall|m: int| i <= m < k ==> is_digit(#[trigger] s[m]),
        k < s.len() ==> !is_digit(s[k]),
    ensures
        scan_digits_end(s, i) == k,
    decreases k - i,
{
    if i < k {
        lemma_scan_digits_exact_from(s, i + 1, k);
    }
}

proof fn lemma_rt_nat(n: nat, rest: Seq<char>)
    requires
        n <= u64::MAX,
    ensures
        parse_nat(ser_nat(n) + rest) == Some((n as int, rest)),
{
    let s = ser_nat(n) + rest;
    let d = dec_nat(n);
    lemma_dec_nat_digits(n);
    let k = d.len() as int;
    assert(s.len() == d.len() + 1 + rest.len());
    assert forall|m: int| 0 <= m < k implies is_digit(#[trigger] s[m]) by {
        assert(s[m] == d[m]);
    }
    assert(s[k] == ':');
    assert(!is_digit(':'));
    lemma_scan_digits_exact(s, k);
    assert(s.take(k) =~= d);
    lemma_digits_value_dec_nat(n);
    assert(s.skip(k + 1) =~= rest);
}

proof fn lemma_rt_int(v: int, rest: Seq<char>)
    requires
        int_in_range(v),
    ensures
        parse_int(ser_int(v) + rest) == Some((v, rest)),
{
    let s = ser_int(v) + rest;
    if v >= 0 {
        assert(s[0] == '+');
        assert(s.skip(1) =~= ser_nat(v as nat) + rest);
        lemma_rt_nat(v as nat, rest);
    } else {
        assert(s[0] == '-');
        assert(s.skip(1) =~= ser_nat((-v) as nat) + rest);
        lemma_rt_nat((-v) as nat, rest);
    }
}

proof fn lemma_rt_str(t: Seq<char>, rest: Seq<char>)
    requires
        t.len() <= u64::MAX,
    ensures
        parse_str(ser_str(t) + rest) == Some((t, rest)),
{
    let s = ser_str(t) + rest;
    assert(s =~= ser_nat(t.len()) + (t + rest));
    lemma_rt_nat(t.len(), t + rest);
    assert((t + rest).take(t.len() as int) =~= t);
    assert((t + rest).skip(t.len() as int) =~= rest);
}

proof fn lemma_rt_value(v: ValueModel, rest: Seq<char>)
    requires
        value_in_range(v),
    ensures
        parse_value(ser_value(v) + rest) == Some((v, rest)),
{
    let s = ser_value(v) + rest;
    match v {
        ValueModel::Undefined => {
            assert(s[0] == 'u');
            assert(s.skip(1) =~= rest);
        },
        ValueModel::Num(n) => {
            assert(s[0] == 'n');
            assert(s.skip(1) =~= ser_int(n) + rest);
            lemma_rt_int(n, rest);
        },
        ValueModel::Str(t) => {
            assert(s[0] == 's');
            assert(s.skip(1) =~= ser_str(t) + rest);
            lemma_rt_str(t, rest);
        },
        ValueModel::Handle(p) => {
            assert(s[0] == 'h');
            assert(s.skip(1) =~= ser_str(p) + rest);
            lemma_rt_str(p, rest);
        },
        ValueModel::Intrinsic(k) => {
            assert(s[0] == 'f');
            assert(s[1] == kind_char(k));
            assert(s.len() >= 2);
            assert(s.skip(2) =~= rest);
        },
    }
}

proof fn lemma_rt_clip(c: ClipModel, rest: Seq<char>)
    requires
        clip_in_range(c),
    ensures
        parse_clip(ser_clip(c) + rest) == Some((c, rest)),
{
    let s = ser_clip(c) + rest;
    assert(s =~= ser_int(c.start_time) + (ser_int(c.length) + (ser_str(c.path) + rest)));
    lemma_rt_int(c.start_time, ser_int(c.length) + (ser_str(c.path) + rest));
    lemma_rt_int(c.length, ser_str(c.path) + rest);
    lemma_rt_str(c.path, rest);
}

proof fn lemma_rt_binding(b: (Seq<char>, ValueModel), rest: Seq<char>)
    requires
        b.0.len() <= u64::MAX,
        value_in_range(b.1),
    ensures
        parse_binding(ser_binding(b) + rest) == Some((b, rest)),
{
    let s = ser_binding(b) + rest;
    assert(s =~= ser_str(b.0) + (ser_value(b.1) + rest));
    lemma_rt_str(b.0, ser_value(b.1) + rest);
    lemma_rt_value(b.1, rest);
}

proof fn lemma_rt_strs(ps: Seq<Seq<char>>, i: int, acc: Seq<Seq<char>>, rest: Seq<char>)
    requires
        0 <= i <= ps.len(),
        forall|j: int| 0 <= j < ps.len() ==> (#[trigger] ps[j]).len() <= u64::MAX,
    ensures
        parse_strs(ser_paths_from(ps, i) + rest, ps.len() - i, acc) == Some(
            (acc + ps.skip(i), rest),
        ),
    decreases ps.len() - i,
{
    if i >= ps.len() {
        assert(ser_paths_from(ps, i) + rest =~= rest);
        assert(acc + ps.skip(i) =~= acc);
    } else {
        let tail = ser_paths_from(ps, i + 1) + rest;
        assert(ser_paths_from(ps, i) + rest =~= ser_str(ps[i]) + tail);
        lemma_rt_str(ps[i], tail);
        lemma_rt_strs(ps, i + 1, acc.push(ps[i]), rest);
        assert(acc.push(ps[i]) + ps.skip(i + 1) =~= acc + ps.skip(i));
    }
}

proof fn lemma_rt_clips(cs: Seq<ClipModel>, i: int, acc: Seq<ClipModel>, rest: Seq<char>)
    requires
        0 <= i <= cs.len(),
        forall|j: int| 0 <= j < cs.len() ==> clip_in_range(#[trigger] cs[j]),
    ensures
        parse_clips(ser_clips_from(cs, i) + rest, cs.len() - i, acc) == Some(
            (acc + cs.skip(i), rest),
        ),
    decreases cs.len() - i,
{
    if i >= cs.len() {
        assert(ser_clips_from(cs, i) + rest =~= rest);
        assert(acc + cs.skip(i) =~= acc);
    } else {
        let tail = ser_clips_from(cs, i + 1) + rest;
        assert(ser_clips_from(cs, i) + rest =~= ser_clip(cs[i]) + tail);
        lemma_rt_clip(cs[i], tail);
        lemma_rt_clips(cs, i + 1, acc.push(cs[i]), rest);
        assert(acc.push(cs[i]) + cs.skip(i + 1) =~= acc + cs.skip(i));
    }
}

proof fn lemma_rt_bindings(
    vs: Seq<(Seq<char>, ValueModel)>,
    i: int,
    acc: Seq<(Seq<char>, ValueModel)>,
    rest: Seq<char>,
)
    requires
        0 <= i <= vs.len(),
        forall|j: int|
            0 <= j < vs.len() ==> (#[trigger] vs[j]).0.len() <= u64::MAX && value_in_range(
                vs[j].1,
            ),
    ensures
        parse_bindings(ser_vars_from(vs, i) + rest, vs.len() - i, acc) == Some(
            (acc + vs.skip(i), rest),
        ),
    decreases vs.len() - i,
{
    if i >= vs.len() {
        assert(ser_vars_from(vs, i) + rest =~= rest);
        assert(acc + vs.skip(i) =~= acc);
    } else {
        let tail = ser_vars_from(vs, i + 1) + rest;
        assert(ser_vars_from(vs, i) + rest =~= ser_binding(vs[i]) + tail);
        lemma_rt_binding(vs[i], tail);
        lemma_rt_bindings(vs, i + 1, acc.push(vs[i]), rest);
        assert(acc.push(vs[i]) + vs.skip(i + 1) =~= acc + vs.skip(i));
    }
}

/// The round trip law: a project written by `spec_serialize` and read back
/// by `spec_deserialize` is structurally equal to the original, for every
/// project whose numbers and lengths fit the format — every project the
/// executable representation can hold does.
pub proof fn lemma_serialize_round_trip(p: ProjectModel)
    requires
        project_in_range(p),
    ensures
        spec_deserialize(spec_serialize(p)) == Some(p),
{
    let s = spec_serialize(p);
    let t1 = ser_paths_from(p.paths, 0);
    let t2 = ser_clips_from(p.timeline, 0);
    let t3 = ser_vars_from(p.variables, 0);
    let e: Seq<char> = Seq::empty();

    assert(s[0] == 'P');
    assert(s.skip(1) =~= ser_nat(p.paths.len()) + (t1 + (ser_nat(p.timeline.len()) + (t2 + (
    ser_nat(p.variables.len()) + (t3 + e))))));
    lemma_rt_nat(p.paths.len(), t1 + (ser_nat(p.timeline.len()) + (t2 + (ser_nat(
        p.variables.len(),
    ) + (t3 + e)))));
    lemma_rt_strs(
        p.paths,
        0,
        Seq::empty(),
        ser_nat(p.timeline.len()) + (t2 + (ser_nat(p.variables.len()) + (t3 + e))),
    );
    assert(Seq::empty() + p.paths.skip(0) =~= p.paths);
    lemma_rt_nat(p.timeline.len(), t2 + (ser_nat(p.variables.len()) + (t3 + e)));
    lemma_rt_clips(p.timeline, 0, Seq::empty(), ser_nat(p.variables.len()) + (t3 + e));
    assert(Seq::empty() + p.timeline.skip(0) =~= p.timeline);
    lemma_rt_nat(p.variables.len(), t3 + e);
    lemma_rt_bindings(p.variables, 0, Seq::empty(), e);
    assert(Seq::empty() + p.variables.skip(0) =~= p.variables);
    assert(e.len() == 0);
}

/// Reads the digit run `s[start..end]` as a `u64`, or reports that its
/// value is too large for the format.
fn digits_to_u64(s: &str, n: usize, start: usize, end: usize) -> (r: Option<u64>)
    requires
        n == s@.len(),
        start <= end <= n,
        all_digits(s@.subrange(start as int, end as int)),
    ensures
        match r {
            Some(v) => v as int == digits_value(s@.subrange(start as int, end as int)),
            None => digits_value(s@.subrange(start as int, end as int)) > u64::MAX,
        },
{
    let ghost run = s@.subrange(start as int, end as int);
    let mut acc: u64 = 0;
    let mut i: usize = start;
    while i < end
        invariant
            n == s@.len(),
            start <= i <= end <= n,
            all_digits(run),
            run == s@.subrange(start as int, end as int),
            acc as int == digits_value(run.take(i - start)),
        decreases end - i,
    {
        let c = s.get_char(i);
        assert(c == run[i - start]);
        assert(is_digit(c));
        let d: u64 = (c as u32 - '0' as u32) as u64;
        assert(d as int == digit_val(c));
        proof {
            assert(run.take(i + 1 - start).drop_last() =~= run.take(i - start));
            assert(run.take(i + 1 - start).last() == c);
        }
        if acc > (u64::MAX - d) / 10 {
            proof {
                let m = u64::MAX as int;
                let q = (m - d) / 10;
                assert(m - d == 10 * q + (m - d) % 10);
                assert(acc as int * 10 >= (q + 1) * 10) by (nonlinear_arith)
                    requires
                        acc as int >= q + 1,
                ;
                assert(digits_value(run.take(i + 1 - start)) > m);
                lemma_digits_value_nonneg(run);
                crate::numerals::lemma_digits_value_mono(run, i + 1 - start);
            }
            return None;
        }
        assert(acc * 10 + d <= u64::MAX) by {
            let m = u64::MAX as int;
            let q = (m - d) / 10;
            assert(m - d == 10 * q + (m - d) % 10);
            assert(acc as int * 10 <= q * 10) by (nonlinear_arith)
                requires
                    acc as int <= q,
            ;
        }
        acc = acc * 10 + d;
        i += 1;
    }
    proof {
        assert(run.take(end - start) =~= run);
    }
    Some(acc)
}

/// Writes a numeral and its `:`.
fn write_nat(n: u64) -> (r: String)
    ensures
        r@ == ser_nat(n as nat),
{
    let r = crate::numerals::fmt_u64(n).concat(":");
    proof {
        reveal_strlit(":");
        assert(r@ =~= ser_nat(n as nat));
    }
    r
}

/// Writes a signed integer.
fn write_int(v: i64) -> (r: String)
    ensures
        r@ == ser_int(v as int),
{
    if v >= 0 {
        let r = "+".to_owned().concat(write_nat(v as u64).as_str());
        proof {
            reveal_strlit("+");
            assert(r@ =~= ser_int(v as int));
        }
        r
    } else {
        let wide: i128 = v as i128;
        let mag: u64 = (-wide) as u64;
        assert(mag as int == -(v as int));
        let r = "-".to_owned().concat(write_nat(mag).as_str());
        proof {
            reveal_strlit("-");
            assert(r@ =~= ser_int(v as int));
        }
        r
    }
}

/// Writes a length-prefixed string.
fn write_str(t: &str) -> (r: String)
    ensures
        r@ == ser_str(t@),
        t@.len() <= u64::MAX,
{
    let n = t.unicode_len();
    let r = write_nat(n as u64).concat(t);
    proof {
        assert(r@ =~= ser_str(t@));
    }
    r
}

/// Writes a tagged value.
fn write_value(v: &crate::values::Value) -> (r: String)
    ensures
        r@ == ser_value(v@),
        value_in_range(v@),
{
    match v {
        crate::values::Value::Undefined => {
            let r = "u".to_owned();
            proof {
                reveal_strlit("u");
                assert(r@ =~= ser_value(v@));
            }
            r
        },
        crate::values::Value::Num(n) => {
            let r = "n".to_owned().concat(write_int(*n).as_str());
            proof {
                reveal_strlit("n");
                assert(r@ =~= ser_value(v@));
            }
            r
        },
        crate::values::Value::Str(s) => {
            let r = "s".to_owned().concat(write_str(s.as_str()).as_str());
            proof {
                reveal_strlit("s");
                assert(r@ =~= ser_value(v@));
            }
            r
        },
        crate::values::Value::Handle(h) => {
            let r = "h".to_owned().concat(write_str(h.path.as_str()).as_str());
            proof {
                reveal_strlit("h");
                assert(r@ =~= ser_value(v@));
            }
            r
        },
        crate::values::Value::Intrinsic(k) => {
            let r: &str = match k {
                IntrinsicKind::Log => "fg",
                IntrinsicKind::LoadClip => "fl",
                IntrinsicKind::CreateVariable => "fc",
            };
            proof {
                reveal_strlit("fg");
                reveal_strlit("fl");
                reveal_strlit("fc");
                assert(r@ =~= ser_value(v@));
            }
            r.to_owned()
        },
    }
}

fn write_clip(c: &crate::project::Clip) -> (r: String)
    ensures
        r@ == ser_clip(c@),
        clip_in_range(c@),
{
    let r = write_int(c.start_time).concat(write_int(c.length).as_str()).concat(
        write_str(c.path.as_str()).as_str(),
    );
    proof {
        assert(r@ =~= ser_clip(c@));
    }
    r
}

fn write_binding(b: &crate::values::Binding) -> (r: String)
    ensures
        r@ == ser_binding(b.deep_view()),
        b.deep_view().0.len() <= u64::MAX,
        value_in_range(b.deep_view().1),
{
    let r = write_str(b.name.as_str()).concat(write_value(&b.value).as_str());
    proof {
        assert(r@ =~= ser_binding(b.deep_view()));
    }
    r
}

fn write_paths(ps: &Vec<String>, i: usize) -> (r: String)
    requires
        i <= ps.len(),
    ensures
        r@ == ser_paths_from(ps.deep_view(), i as int),
        forall|j: int|
            i <= j < ps.len() ==> (#[trigger] ps.deep_view()[j]).len() <= u64::MAX,
    decreases ps.len() - i,
{
    if i >= ps.len() {
        let r = String::new();
        proof {
            assert(r@ =~= ser_paths_from(ps.deep_view(), i as int));
        }
        r
    } else {
        let r = write_str(ps[i].as_str()).concat(write_paths(ps, i + 1).as_str());
        proof {
            assert(r@ =~= ser_paths_from(ps.deep_view(), i as int));
        }
        r
    }
}

fn write_clips(cs: &Vec<crate::project::Clip>, i: usize) -> (r: String)
    requires
        i <= cs.len(),
    ensures
        r@ == ser_clips_from(cs.deep_view(), i as int),
        forall|j: int| i <= j < cs.len() ==> clip_in_range(#[trigger] cs.deep_view()[j]),
    decreases cs.len() - i,
{
    if i >= cs.len() {
        let r = String::new();
        proof {
            assert(r@ =~= ser_clips_from(cs.deep_view(), i as int));
        }
        r
    } else {
        let r = write_clip(&cs[i]).concat(write_clips(cs, i + 1).as_str());
        proof {
            assert(r@ =~= ser_clips_from(cs.deep_view(), i as int));
        }
        r
    }
}

fn write_bindings(vs: &Vec<crate::values::Binding>, i: usize) -> (r: String)
    requires
        i <= vs.len(),
    ensures
        r@ == ser_vars_from(vs.deep_view(), i as int),
        forall|j: int|
            i <= j < vs.len() ==> (#[trigger] vs.deep_view()[j]).0.len() <= u64::MAX
                && value_in_range(vs.deep_view()[j].1),
    decreases vs.len() - i,
{
    if i >= vs.len() {
        let r = String::new();
        proof {
            assert(r@ =~= ser_vars_from(vs.deep_view(), i as int));
        }
        r
    } else {
        let r = write_binding(&vs[i]).concat(write_bindings(vs, i + 1).as_str());
        proof {
            assert(r@ =~= ser_vars_from(vs.deep_view(), i as int));
        }
        r
    }
}

/// Serializes a project: `spec_serialize` made executable. The result
/// always reads back as the same project: every project the executable
/// representation can hold is in range for the format.
pub fn serialize_project(p: &crate::project::Project) -> (r: String)
    ensures
        r@ == spec_serialize(p@),
        spec_deserialize(r@) == Some(p@),
{
    let r = "P"
        .to_owned()
        .concat(write_nat(p.paths.len() as u64).as_str())
        .concat(write_paths(&p.paths, 0).as_str())
        .concat(write_nat(p.timeline.len() as u64).as_str())
        .concat(write_clips(&p.timeline, 0).as_str())
        .concat(write_nat(p.variables.len() as u64).as_str())
        .concat(write_bindings(&p.variables, 0).as_str());
    proof {
        reveal_strlit("P");
        assert(r@ =~= spec_serialize(p@));
        assert(project_in_range(p@));
        lemma_serialize_round_trip(p@);
    }
    r
}

fn read_nat<'a>(s: &'a str) -> (r: Option<(u64, &'a str)>)
    ensures
        match r {
            Some((v, rest)) => parse_nat(s@) == Some((v as int, rest@)),
            None => parse_nat(s@) is None,
        },
{
    let n = s.unicode_len();
    let k = crate::lexer::scan_digits_end_exec(s, n, 0);
    if k == 0 || k >= n {
        return None;
    }
    if s.get_char(k) != ':' {
        return None;
    }
    proof {
        lemma_scan_digits_end(s@, 0);
        assert forall|t: int| 0 <= t < k implies is_digit(
            #[trigger] s@.subrange(0, k as int)[t],
        ) by {
            assert(s@.subrange(0, k as int)[t] == s@[t]);
        }
        assert(all_digits(s@.subrange(0, k as int)));
        assert(s@.subrange(0, k as int) =~= s@.take(k as int));
        lemma_digits_value_nonneg(s@.subrange(0, k as int));
    }
    match digits_to_u64(s, n, 0, k) {
        None => None,
        Some(v) => {
            let rest = s.substring_char(k + 1, n);
            proof {
                assert(rest@ =~= s@.skip(k + 1));
            }
            Some((v, rest))
        },
    }
}

fn read_int<'a>(s: &'a str) -> (r: Option<(i64, &'a str)>)
    ensures
        match r {
            Some((v, rest)) => parse_int(s@) == Some((v as int, rest@)),
            None => parse_int(s@) is None,
        },
{
    let n = s.unicode_len();
    if n == 0 {
        return None;
    }
    let c = s.get_char(0);
    if c != '+' && c != '-' {
        return None;
    }
    let tail = s.substring_char(1, n);
    proof {
        assert(tail@ =~= s@.skip(1));
    }
    match read_nat(tail) {
        None => None,
        Some((v, rest)) => {
            if c == '+' {
                if v > i64::MAX as u64 {
                    None
                } else {
                    Some((v as i64, rest))
                }
            } else {
                if v > 9223372036854775808u64 {
                    None
                } else if v == 9223372036854775808u64 {
                    Some((i64::MIN, rest))
                } else {
                    Some((-(v as i64), rest))
                }
            }
        },
    }
}

fn read_str<'a>(s: &'a str) -> (r: Option<(String, &'a str)>)
    ensures
        match r {
            Some((t, rest)) => parse_str(s@) == Some((t@, rest@)),
            None => parse_str(s@) is None,
        },
{
    match read_nat(s) {
        None => None,
        Some((v, rest)) => {
            let m = rest.unicode_len();
            if v > m as u64 {
                None
            } else {
                let t = rest.substring_char(0, v as usize).to_owned();
                let r2 = rest.substring_char(v as usize, m);
                proof {
                    assert(t@ =~= rest@.take(v as int));
                    assert(r2@ =~= rest@.skip(v as int));
                }
                Some((t, r2))
            }
        },
    }
}

fn read_value<'a>(s: &'a str) -> (r: Option<(crate::values::Value, &'a str)>)
    ensures
        match r {
            Some((v, rest)) => parse_value(s@) == Some((v@, rest@)),
            None => parse_value(s@) is None,
        },
{
    let n = s.unicode_len();
    if n == 0 {
        return None;
    }
    let c = s.get_char(0);
    if c == 'u' {
        let rest = s.substring_char(1, n);
        proof {
            assert(rest@ =~= s@.skip(1));
        }
        Some((crate::values::Value::Undefined, rest))
    } else if c == 'n' {
        let tail = s.substring_char(1, n);
        proof {
            assert(tail@ =~= s@.skip(1));
        }
        match read_int(tail) {
            None => None,
            Some((v, rest)) => Some((crate::values::Value::Num(v), rest)),
        }
    } else if c == 's' {
        let tail = s.substring_char(1, n);
        proof {
            assert(tail@ =~= s@.skip(1));
        }
        match read_str(tail) {
            None => None,
            Some((t, rest)) => Some((crate::values::Value::Str(t), rest)),
        }
    } else if c == 'h' {
        let tail = s.substring_char(1, n);
        proof {
            assert(tail@ =~= s@.skip(1));
        }
        match read_str(tail) {
            None => None,
            Some((t, rest)) => Some(
                (crate::values::Value::Handle(crate::values::ClipHandle { path: t }), rest),
            ),
        }
    } else if c == 'f' {
        if n < 2 {
            return None;
        }
        let c2 = s.get_char(1);
        let rest = s.substring_char(2, n);
        proof {
            assert(rest@ =~= s@.skip(2));
        }
        if c2 == 'g' {
            Some((crate::values::Value::Intrinsic(IntrinsicKind::Log), rest))
        } else if c2 == 'l' {
            Some((crate::values::Value::Intrinsic(IntrinsicKind::LoadClip), rest))
        } else if c2 == 'c' {
            Some((crate::values::Value::Intrinsic(IntrinsicKind::CreateVariable), rest))
        } else {
            None
        }
    } else {
        None
    }
}

fn read_clip<'a>(s: &'a str) -> (r: Option<(crate::project::Clip, &'a str)>)
    ensures
        match r {
            Some((c, rest)) => parse_clip(s@) == Some((c@, rest@)),
            None => parse_clip(s@) is None,
        },
{
    match read_int(s) {
        None => None,
        Some((start_time, r1)) => match read_int(r1) {
            None => None,
            Some((length, r2)) => match read_str(r2) {
                None => None,
                Some((path, r3)) => Some(
                    (crate::project::Clip { start_time, length, path }, r3),
                ),
            },
        },
    }
}

fn read_binding<'a>(s: &'a str) -> (r: Option<(crate::values::Binding, &'a str)>)
    ensures
        match r {
            Some((b, rest)) => parse_binding(s@) == Some((b.deep_view(), rest@)),
            None => parse_binding(s@) is None,
        },
{
    match read_str(s) {
        None => None,
        Some((name, r1)) => match read_value(r1) {
            None => None,
            Some((v, r2)) => Some((crate::values::Binding { name, value: v }, r2)),
        },
    }
}

fn read_strs<'a>(s: &'a str, cnt: u64, acc: Vec<String>) -> (r: Option<(Vec<String>, &'a str)>)
    ensures
        match r {
            Some((ts, rest)) => parse_strs(s@, cnt as int, acc.deep_view()) == Some(
                (ts.deep_view(), rest@),
            ),
            None => parse_strs(s@, cnt as int, acc.deep_view()) is None,
        },
    decreases cnt,
{
    let ghost acc0 = acc.deep_view();
    if cnt == 0 {
        return Some((acc, s));
    }
    match read_str(s) {
        None => None,
        Some((t, rest)) => {
            let ghost tm = t@;
            let mut acc2 = acc;
            acc2.push(t);
            proof {
                assert(acc2.deep_view() =~= acc0.push(tm));
            }
            read_strs(rest, cnt - 1, acc2)
        },
    }
}

fn read_clips<'a>(s: &'a str, cnt: u64, acc: Vec<crate::project::Clip>) -> (r: Option<
    (Vec<crate::project::Clip>, &'a str),
>)
    ensures
        match r {
            Some((cs, rest)) => parse_clips(s@, cnt as int, acc.deep_view()) == Some(
                (cs.deep_view(), rest@),
            ),
            None => parse_clips(s@, cnt as int, acc.deep_view()) is None,
        },
    decreases cnt,
{
    let ghost acc0 = acc.deep_view();
    if cnt == 0 {
        return Some((acc, s));
    }
    match read_clip(s) {
        None => None,
        Some((c, rest)) => {
            let ghost cm = c@;
            let mut acc2 = acc;
            acc2.push(c);
            proof {
                assert(acc2.deep_view() =~= acc0.push(cm));
            }
            read_clips(rest, cnt - 1, acc2)
        },
    }
}

fn read_bindings<'a>(s: &'a str, cnt: u64, acc: Vec<crate::values::Binding>) -> (r: Option<
    (Vec<crate::values::Binding>, &'a str),
>)
    ensures
        match r {
            Some((bs, rest)) => parse_bindings(s@, cnt as int, acc.deep_view()) == Some(
                (bs.deep_view(), rest@),
            ),
            None => parse_bindings(s@, cnt as int, acc.deep_view()) is None,
        },
    decreases cnt,
{
    let ghost acc0 = acc.deep_view();
    if cnt == 0 {
        return Some((acc, s));
    }
    match read_binding(s) {
        None => None,
        Some((b, rest)) => {
            let ghost bm = b.deep_view();
            let mut acc2 = acc;
            acc2.push(b);
            proof {
                assert(acc2.deep_view() =~= acc0.push(bm));
            }
            read_bindings(rest, cnt - 1, acc2)
        },
    }
}

/// Deserializes a project: `spec_deserialize` made executable.
pub fn deserialize_project(s: &str) -> (r: Option<crate::project::Project>)
    ensures
        match r {
            Some(p) => spec_deserialize(s@) == Some(p@),
            None => spec_deserialize(s@) is None,
        },
{
    let n = s.unicode_len();
    if n == 0 {
        return None;
    }
    if s.get_char(0) != 'P' {
        return None;
    }
    let r0 = s.substring_char(1, n);
    proof {
        assert(r0@ =~= s@.skip(1));
    }
    let (np, r1) = match read_nat(r0) {
        None => {
            return None;
        },
        Some(x) => x,
    };
    let empty_paths: Vec<String> = Vec::new();
    proof {
        assert(empty_paths.deep_view() =~= Seq::<Seq<char>>::empty());
    }
    let (paths, r2) = match read_strs(r1, np, empty_paths) {
        None => {
            return None;
        },
        Some(x) => x,
    };
    let (nt, r3) = match read_nat(r2) {
        None => {
            return None;
        },
        Some(x) => x,
    };
    let empty_clips: Vec<crate::project::Clip> = Vec::new();
    proof {
        assert(empty_clips.deep_view() =~= Seq::<ClipModel>::empty());
    }
    let (timeline, r4) = match read_clips(r3, nt, empty_clips) {
        None => {
            return None;
        },
        Some(x) => x,
    };
    let (nv, r5) = match read_nat(r4) {
        None => {
            return None;
        },
        Some(x) => x,
    };
    let empty_vars: Vec<crate::values::Binding> = Vec::new();
    proof {
        assert(empty_vars.deep_view() =~= Seq::<(Seq<char>, ValueModel)>::empty());
    }
    let (vars, r6) = match read_bindings(r5, nv, empty_vars) {
        None => {
            return None;
        },
        Some(x) => x,
    };
    if !r6.is_empty() {
        return None;
    }
    Some(crate::project::Project { paths, timeline, variables: vars })
}

} // verus!
