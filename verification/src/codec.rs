//! The line-delimited JSON report format: an exact model of each emitted
//! line, a verified renderer, and a parse model with a round-trip proof.

use vstd::prelude::*;
use crate::record::{CONF_ONE_MICRO, DetectedLanguage, json_safe, wf_fields};

verus! {

// ---------------------------------------------------------------------------
// The shape of one line. A line is the concatenation of five fixed keys,
// the three text fields, and the confidence written with six decimals.
// ---------------------------------------------------------------------------
pub open spec fn key_lang() -> Seq<char> {
    "{\"lang\":\""@
}

pub open spec fn key_iso1() -> Seq<char> {
    "\",\"iso_639_1\":\""@
}

pub open spec fn key_iso3() -> Seq<char> {
    "\",\"iso_639_3\":\""@
}

pub open spec fn key_conf() -> Seq<char> {
    "\",\"confidence\":"@
}

pub open spec fn key_close() -> Seq<char> {
    "}"@
}

pub open spec fn digit_char(d: int) -> char {
    if d == 0 {
        '0'
    } else if d == 1 {
        '1'
    } else if d == 2 {
        '2'
    } else if d == 3 {
        '3'
    } else if d == 4 {
        '4'
    } else if d == 5 {
        '5'
    } else if d == 6 {
        '6'
    } else if d == 7 {
        '7'
    } else if d == 8 {
        '8'
    } else {
        '9'
    }
}

/// The value of a decimal digit character, `-1` for any other character.
pub open spec fn digit_val(c: char) -> int {
    if c == '0' {
        0
    } else if c == '1' {
        1
    } else if c == '2' {
        2
    } else if c == '3' {
        3
    } else if c == '4' {
        4
    } else if c == '5' {
        5
    } else if c == '6' {
        6
    } else if c == '7' {
        7
    } else if c == '8' {
        8
    } else if c == '9' {
        9
    } else {
        -1
    }
}

pub open spec fn is_digit(c: char) -> bool {
    digit_val(c) >= 0
}

pub open spec fn all_digits(s: Seq<char>) -> bool {
    forall|i: int| 0 <= i < s.len() ==> is_digit(#[trigger] s[i])
}

/// The last `k` decimal digits of `c`, most significant first.
pub open spec fn digits_msb(c: nat, k: nat) -> Seq<char>
    decreases k,
{
    if k == 0 {
        Seq::empty()
    } else {
        digits_msb(c / 10, (k - 1) as nat).push(digit_char((c % 10) as int))
    }
}

/// The value of a digit string, most significant first.
pub open spec fn val_msb(s: Seq<char>) -> int
    decreases s.len(),
{
    if s.len() == 0 {
        0
    } else {
        val_msb(s.drop_last()) * 10 + digit_val(s.last())
    }
}

/// The confidence, written as a fixed-point decimal with six digits after
/// the point: eight characters, `0.000000` through `1.000000`.
pub open spec fn conf_chars(c: nat) -> Seq<char> {
    seq![digit_char((c / 1000000) as int), '.'] + digits_msb(c % 1000000, 6)
}

/// One emitted line (without its terminator), from the record's parts.
pub open spec fn render_spec(
    lang: Seq<char>,
    iso_639_1: Seq<char>,
    iso_639_3: Seq<char>,
    confidence_micro: nat,
) -> Seq<char> {
    key_lang() + lang + key_iso1() + iso_639_1 + key_iso3() + iso_639_3 + key_conf() + conf_chars(
        confidence_micro,
    ) + key_close()
}

pub open spec fn render_record_spec(rec: DetectedLanguage) -> Seq<char> {
    render_spec(rec.lang@, rec.iso_639_1@, rec.iso_639_3@, rec.confidence_micro as nat)
}

/// The whole report: every record's line, in order, each followed by a
/// line terminator.
pub open spec fn render_report_spec(recs: Seq<DetectedLanguage>) -> Seq<char>
    decreases recs.len(),
{
    if recs.len() == 0 {
        Seq::empty()
    } else {
        render_report_spec(recs.drop_last()) + render_record_spec(recs.last()) + seq!['\n']
    }
}

// ---------------------------------------------------------------------------
// The renderer.
// ---------------------------------------------------------------------------
/// The one-character string for a decimal digit.
fn digit_str(d: u64) -> (r: &'static str)
    requires
        d < 10,
    ensures
        r@ == seq![digit_char(d as int)],
{
    match d {
        0 => {
            proof {
                reveal_strlit("0");
                assert("0"@ =~= seq![digit_char(0)]);
            }
            "0"
        },
        1 => {
            proof {
                reveal_strlit("1");
                assert("1"@ =~= seq![digit_char(1)]);
            }
            "1"
        },
        2 => {
            proof {
                reveal_strlit("2");
                assert("2"@ =~= seq![digit_char(2)]);
            }
            "2"
        },
        3 => {
            proof {
                reveal_strlit("3");
                assert("3"@ =~= seq![digit_char(3)]);
            }
            "3"
        },
        4 => {
            proof {
                reveal_strlit("4");
                assert("4"@ =~= seq![digit_char(4)]);
            }
            "4"
        },
        5 => {
            proof {
                reveal_strlit("5");
                assert("5"@ =~= seq![digit_char(5)]);
            }
            "5"
        },
        6 => {
            proof {
                reveal_strlit("6");
                assert("6"@ =~= seq![digit_char(6)]);
            }
            "6"
        },
        7 => {
            proof {
                reveal_strlit("7");
                assert("7"@ =~= seq![digit_char(7)]);
            }
            "7"
        },
        8 => {
            proof {
                reveal_strlit("8");
                assert("8"@ =~= seq![digit_char(8)]);
            }
            "8"
        },
        _ => {
            proof {
                reveal_strlit("9");
                assert("9"@ =~= seq![digit_char(9)]);
            }
            "9"
        },
    }
}

/// Appends the last `k` decimal digits of `c`, most significant first.
fn push_digits(out: &mut String, c: u64, k: u64)
    requires
        k <= 7,
    ensures
        final(out)@ == old(out)@ + digits_msb(c as nat, k as nat),
    decreases k,
{
    if k == 0 {
        proof {
            assert(old(out)@ + digits_msb(c as nat, 0) =~= old(out)@);
        }
    } else {
        push_digits(out, c / 10, k - 1);
        out.append(digit_str(c % 10));
        proof {
            assert(old(out)@ + digits_msb(c as nat, k as nat) =~= (old(out)@ + digits_msb(
                (c / 10) as nat,
                (k - 1) as nat,
            )) + seq![digit_char((c % 10) as int)]);
        }
    }
}

/// Renders one record as its line, exactly as `render_record_spec` says.
pub fn render_line(rec: &DetectedLanguage) -> (r: String)
    requires
        rec.wf(),
    ensures
        r@ == render_record_spec(*rec),
{
    let mut out = String::new();
    out.append("{\"lang\":\"");
    out.append(rec.lang.as_str());
    out.append("\",\"iso_639_1\":\"");
    out.append(rec.iso_639_1.as_str());
    out.append("\",\"iso_639_3\":\"");
    out.append(rec.iso_639_3.as_str());
    out.append("\",\"confidence\":");
    out.append(digit_str(rec.confidence_micro / 1000000));
    out.append(".");
    push_digits(&mut out, rec.confidence_micro % 1000000, 6);
    out.append("}");
    proof {
        reveal_strlit(".");
        assert("."@ =~= seq!['.']);
        assert(out@ =~= render_record_spec(*rec));
    }
    out
}

/// Renders the whole report, one line per record in order, exactly as
/// `render_report_spec` says; an empty record sequence yields empty
/// output.
pub fn render_report(records: &Vec<DetectedLanguage>) -> (r: String)
    requires
        forall|i: int| 0 <= i < records@.len() ==> (#[trigger] records@[i]).wf(),
    ensures
        r@ == render_report_spec(records@),
{
    let mut out = String::new();
    let n = records.len();
    let mut i: usize = 0;
    while i < n
        invariant
            n == records@.len(),
            i <= n,
            forall|j: int| 0 <= j < n ==> (#[trigger] records@[j]).wf(),
            out@ == render_report_spec(records@.take(i as int)),
        decreases n - i,
    {
        let line = render_line(&records[i]);
        out.append(line.as_str());
        out.append("\n");
        proof {
            reveal_strlit("\n");
            assert("\n"@ =~= seq!['\n']);
            assert(records@.take(i + 1).drop_last() =~= records@.take(i as int));
            assert(records@.take(i + 1).last() == records@[i as int]);
            assert(out@ =~= render_report_spec(records@.take(i + 1)));
        }
        i = i + 1;
    }
    proof {
        assert(records@.take(n as int) =~= records@);
    }
    out
}

// ---------------------------------------------------------------------------
// The parse model: what a line means when read back. `parse_spec` accepts
// exactly the renderings of well-formed records, and the round-trip proof
// below shows that every emitted line exposes the same language, both
// codes, and the same confidence that was rendered.
// ---------------------------------------------------------------------------
/// `key_iso1()` without its leading quote: what follows a field's closing
/// quote before the two-letter code.
pub open spec fn tail_iso1() -> Seq<char> {
    ",\"iso_639_1\":\""@
}

/// `key_iso3()` without its leading quote.
pub open spec fn tail_iso3() -> Seq<char> {
    ",\"iso_639_3\":\""@
}

/// `key_conf()` without its leading quote.
pub open spec fn tail_conf() -> Seq<char> {
    ",\"confidence\":"@
}

/// Splits a sequence at its first quote character: the text before it and
/// the remainder after it.
pub open spec fn split_at_quote(s: Seq<char>) -> Option<(Seq<char>, Seq<char>)>
    decreases s.len(),
{
    if s.len() == 0 {
        None
    } else if s[0] == '"' {
        Some((Seq::empty(), s.drop_first()))
    } else {
        match split_at_quote(s.drop_first()) {
            None => None,
            Some(p) => Some((seq![s[0]] + p.0, p.1)),
        }
    }
}

pub open spec fn starts_with(s: Seq<char>, p: Seq<char>) -> bool {
    s.len() >= p.len() && s.take(p.len() as int) == p
}

/// Reads the eight confidence characters back into micro-units.
pub open spec fn parse_conf(s: Seq<char>) -> Option<nat> {
    if s.len() == 8 && s[1] == '.' && is_digit(s[0]) && all_digits(s.skip(2)) {
        let v = digit_val(s[0]) * 1000000 + val_msb(s.skip(2));
        if 0 <= v <= CONF_ONE_MICRO {
            Some(v as nat)
        } else {
            None
        }
    } else {
        None
    }
}

/// Reads one line back into a record's parts. The result is `Some`
/// exactly when the line is the rendering of a well-formed record, and it
/// then returns that record's fields.
pub open spec fn parse_spec(s: Seq<char>) -> Option<(Seq<char>, Seq<char>, Seq<char>, nat)> {
    if !starts_with(s, key_lang()) {
        None
    } else {
        match split_at_quote(s.skip(key_lang().len() as int)) {
            None => None,
            Some((lang, r1)) => {
                if !starts_with(r1, tail_iso1()) {
                    None
                } else {
                    match split_at_quote(r1.skip(tail_iso1().len() as int)) {
                        None => None,
                        Some((iso1, r2)) => {
                            if !starts_with(r2, tail_iso3()) {
                                None
                            } else {
                                match split_at_quote(r2.skip(tail_iso3().len() as int)) {
                                    None => None,
                                    Some((iso3, r3)) => {
                                        if !starts_with(r3, tail_conf()) {
                                            None
                                        } else {
                                            let rest = r3.skip(tail_conf().len() as int);
                                            if rest.len() == 9 && rest[8] == '}' {
                                                match parse_conf(rest.take(8)) {
                                                    None => None,
                                                    Some(c) => {
                                                        if wf_fields(lang, iso1, iso3, c as u64)
                                                            && c <= CONF_ONE_MICRO {
                                                            Some((lang, iso1, iso3, c))
                                                        } else {
                                                            None
                                                        }
                                                    },
                                                }
                                            } else {
                                                None
                                            }
                                        }
                                    },
                                }
                            }
                        },
                    }
                }
            },
        }
    }
}

/// Splitting at the first quote undoes quoting a quote-free field.
proof fn lemma_split_at_quote_concat(f: Seq<char>, r: Seq<char>)
    requires
        forall|i: int| 0 <= i < f.len() ==> #[trigger] f[i] != '"',
    ensures
        split_at_quote(f + seq!['"'] + r) == Some((f, r)),
    decreases f.len(),
{
    let s = f + seq!['"'] + r;
    if f.len() == 0 {
        assert(s[0] == '"');
        assert(s.drop_first() =~= r);
        assert(Seq::<char>::empty() =~= f);
    } else {
        assert(s[0] == f[0]);
        assert(s.drop_first() =~= f.drop_first() + seq!['"'] + r);
        lemma_split_at_quote_concat(f.drop_first(), r);
        assert(seq![f[0]] + f.drop_first() =~= f);
    }
}

pub open spec fn pow10(k: nat) -> nat
    decreases k,
{
    if k == 0 {
        1
    } else {
        10 * pow10((k - 1) as nat)
    }
}

proof fn lemma_digit_roundtrip(d: int)
    requires
        0 <= d < 10,
    ensures
        digit_val(digit_char(d)) == d,
{
}

/// Writing the last `k` digits of a value below `10^k` and reading them
/// back restores the value.
proof fn lemma_digits_msb_val(c: nat, k: nat)
    requires
        c < pow10(k),
    ensures
        digits_msb(c, k).len() == k,
        all_digits(digits_msb(c, k)),
        val_msb(digits_msb(c, k)) == c,
    decreases k,
{
    if k == 0 {
    } else {
        let ds = digits_msb(c, k);
        let hi = digits_msb(c / 10, (k - 1) as nat);
        assert(c < 10 * pow10((k - 1) as nat));
        assert((c as int) / 10 < pow10((k - 1) as nat)) by {
            vstd::arithmetic::div_mod::lemma_multiply_divide_lt(
                c as int,
                10,
                pow10((k - 1) as nat) as int,
            );
        }
        lemma_digits_msb_val(c / 10, (k - 1) as nat);
        assert(ds == hi.push(digit_char((c % 10) as int)));
        assert(ds.drop_last() =~= hi);
        assert(ds.last() == digit_char((c % 10) as int));
        lemma_digit_roundtrip((c % 10) as int);
        assert(c as int == 10 * ((c as int) / 10) + (c as int) % 10) by {
            vstd::arithmetic::div_mod::lemma_fundamental_div_mod(c as int, 10);
        }
        assert(val_msb(ds) == c);
        assert forall|i: int| 0 <= i < ds.len() implies is_digit(#[trigger] ds[i]) by {
            if i < k - 1 {
                assert(ds[i] == hi[i]);
            } else {
                assert(ds[i] == digit_char((c % 10) as int));
            }
        }
    }
}

/// Writing the confidence and reading it back restores it.
proof fn lemma_conf_roundtrip(c: nat)
    requires
        c <= CONF_ONE_MICRO,
    ensures
        parse_conf(conf_chars(c)) == Some(c),
{
    let s = conf_chars(c);
    let lo = digits_msb(c % 1000000, 6);
    assert(pow10(6) == 1000000) by {
        reveal_with_fuel(pow10, 7);
    }
    lemma_digits_msb_val(c % 1000000, 6);
    assert(s.len() == 8);
    assert(s[1] == '.');
    assert(s[0] == digit_char((c / 1000000) as int));
    lemma_digit_roundtrip((c / 1000000) as int);
    assert(s.skip(2) =~= lo);
    assert(c as int == 1000000 * ((c as int) / 1000000) + (c as int) % 1000000) by {
        vstd::arithmetic::div_mod::lemma_fundamental_div_mod(c as int, 1000000);
    }
    assert(digit_val(s[0]) * 1000000 + val_msb(s.skip(2)) == c);
}

/// Round-trip fidelity: every emitted line reads back into exactly the
/// language, the two codes, and the confidence that were rendered.
pub proof fn lemma_parse_render_roundtrip(rec: DetectedLanguage)
    requires
        rec.wf(),
    ensures
        parse_spec(render_record_spec(rec)) == Some(
            (rec.lang@, rec.iso_639_1@, rec.iso_639_3@, rec.confidence_micro as nat),
        ),
{
    reveal_strlit("{\"lang\":\"");
    reveal_strlit("\",\"iso_639_1\":\"");
    reveal_strlit("\",\"iso_639_3\":\"");
    reveal_strlit("\",\"confidence\":");
    reveal_strlit("}");
    reveal_strlit(",\"iso_639_1\":\"");
    reveal_strlit(",\"iso_639_3\":\"");
    reveal_strlit(",\"confidence\":");
    let lang = rec.lang@;
    let iso1 = rec.iso_639_1@;
    let iso3 = rec.iso_639_3@;
    let c = rec.confidence_micro as nat;
    let s = render_record_spec(rec);
    let cc = conf_chars(c);
    assert(pow10(6) == 1000000) by {
        reveal_with_fuel(pow10, 7);
    }
    lemma_digits_msb_val(c % 1000000, 6);
    assert(cc.len() == 8);

    assert(key_iso1() =~= seq!['"'] + tail_iso1());
    assert(key_iso3() =~= seq!['"'] + tail_iso3());
    assert(key_conf() =~= seq!['"'] + tail_conf());

    let r1 = tail_iso1() + iso1 + key_iso3() + iso3 + key_conf() + cc + key_close();
    let r2 = tail_iso3() + iso3 + key_conf() + cc + key_close();
    let r3 = tail_conf() + cc + key_close();

    assert(starts_with(s, key_lang())) by {
        assert(s.take(key_lang().len() as int) =~= key_lang());
    }
    assert(s.skip(key_lang().len() as int) =~= lang + seq!['"'] + r1);
    lemma_split_at_quote_concat(lang, r1);
    assert(split_at_quote(s.skip(key_lang().len() as int)) == Some((lang, r1)));

    assert(starts_with(r1, tail_iso1())) by {
        assert(r1.take(tail_iso1().len() as int) =~= tail_iso1());
    }
    assert(r1.skip(tail_iso1().len() as int) =~= iso1 + seq!['"'] + r2);
    lemma_split_at_quote_concat(iso1, r2);

    assert(starts_with(r2, tail_iso3())) by {
        assert(r2.take(tail_iso3().len() as int) =~= tail_iso3());
    }
    assert(r2.skip(tail_iso3().len() as int) =~= iso3 + seq!['"'] + r3);
    lemma_split_at_quote_concat(iso3, r3);

    assert(starts_with(r3, tail_conf())) by {
        assert(r3.take(tail_conf().len() as int) =~= tail_conf());
    }
    let rest = r3.skip(tail_conf().len() as int);
    assert(rest =~= cc + key_close());
    assert(rest.len() == 9);
    assert(rest[8] == '}');
    assert(rest.take(8) =~= cc);
    lemma_conf_roundtrip(c);
    assert(parse_conf(rest.take(8)) == Some(c));
    assert(wf_fields(lang, iso1, iso3, c as u64));
}

// ---------------------------------------------------------------------------
// Line accounting: each record contributes exactly one terminator, so the
// report holds exactly one line per record.
// ---------------------------------------------------------------------------
pub open spec fn count_char(s: Seq<char>, c: char) -> int
    decreases s.len(),
{
    if s.len() == 0 {
        0
    } else {
        count_char(s.drop_last(), c) + if s.last() == c {
            1int
        } else {
            0int
        }
    }
}

proof fn lemma_count_char_concat(a: Seq<char>, b: Seq<char>, c: char)
    ensures
        count_char(a + b, c) == count_char(a, c) + count_char(b, c),
    decreases b.len(),
{
    if b.len() == 0 {
        assert(a + b =~= a);
    } else {
        assert((a + b).drop_last() =~= a + b.drop_last());
        lemma_count_char_concat(a, b.drop_last(), c);
    }
}

proof fn lemma_count_char_none(s: Seq<char>, c: char)
    requires
        forall|i: int| 0 <= i < s.len() ==> #[trigger] s[i] != c,
    ensures
        count_char(s, c) == 0,
    decreases s.len(),
{
    if s.len() > 0 {
        lemma_count_char_none(s.drop_last(), c);
    }
}

proof fn lemma_no_newline_in_safe(s: Seq<char>)
    requires
        json_safe(s),
    ensures
        count_char(s, '\n') == 0,
{
    assert forall|i: int| 0 <= i < s.len() implies #[trigger] s[i] != '\n' by {
        assert(0x20 <= s[i] as int);
        assert('\n' as int == 10);
    }
    lemma_count_char_none(s, '\n');
}

proof fn lemma_no_newline_in_digits(c: nat, k: nat)
    requires
        c < pow10(k),
    ensures
        count_char(digits_msb(c, k), '\n') == 0,
{
    lemma_digits_msb_val(c, k);
    let s = digits_msb(c, k);
    assert forall|i: int| 0 <= i < s.len() implies #[trigger] s[i] != '\n' by {
        assert(is_digit(s[i]));
        assert(digit_val('\n') == -1);
    }
    lemma_count_char_none(s, '\n');
}

/// One record's line holds no terminator of its own.
proof fn lemma_render_record_no_newline(rec: DetectedLanguage)
    requires
        rec.wf(),
    ensures
        count_char(render_record_spec(rec), '\n') == 0,
{
    reveal_strlit("{\"lang\":\"");
    reveal_strlit("\",\"iso_639_1\":\"");
    reveal_strlit("\",\"iso_639_3\":\"");
    reveal_strlit("\",\"confidence\":");
    reveal_strlit("}");
    let c = rec.confidence_micro as nat;
    let cc = conf_chars(c);
    assert forall|i: int| 0 <= i < key_lang().len() implies #[trigger] key_lang()[i] != '\n' by {
        assert('\n' as int == 10);
    }
    lemma_count_char_none(key_lang(), '\n');
    assert forall|i: int| 0 <= i < key_iso1().len() implies #[trigger] key_iso1()[i] != '\n' by {
        assert('\n' as int == 10);
    }
    lemma_count_char_none(key_iso1(), '\n');
    assert forall|i: int| 0 <= i < key_iso3().len() implies #[trigger] key_iso3()[i] != '\n' by {
        assert('\n' as int == 10);
    }
    lemma_count_char_none(key_iso3(), '\n');
    assert forall|i: int| 0 <= i < key_conf().len() implies #[trigger] key_conf()[i] != '\n' by {
        assert('\n' as int == 10);
    }
    lemma_count_char_none(key_conf(), '\n');
    assert forall|i: int| 0 <= i < key_close().len() implies #[trigger] key_close()[i] != '\n' by {
        assert('\n' as int == 10);
    }
    lemma_count_char_none(key_close(), '\n');
    lemma_no_newline_in_safe(rec.lang@);
    lemma_no_newline_in_safe(rec.iso_639_1@);
    lemma_no_newline_in_safe(rec.iso_639_3@);
    assert(pow10(6) == 1000000) by {
        reveal_with_fuel(pow10, 7);
    }
    lemma_no_newline_in_digits(c % 1000000, 6);
    assert(count_char(seq![digit_char((c / 1000000) as int), '.'], '\n') == 0) by {
        lemma_count_char_none(seq![digit_char((c / 1000000) as int), '.'], '\n');
    }
    lemma_count_char_concat(seq![digit_char((c / 1000000) as int), '.'], digits_msb(c % 1000000, 6), '\n');
    let p1 = key_lang() + rec.lang@;
    lemma_count_char_concat(key_lang(), rec.lang@, '\n');
    let p2 = p1 + key_iso1();
    lemma_count_char_concat(p1, key_iso1(), '\n');
    let p3 = p2 + rec.iso_639_1@;
    lemma_count_char_concat(p2, rec.iso_639_1@, '\n');
    let p4 = p3 + key_iso3();
    lemma_count_char_concat(p3, key_iso3(), '\n');
    let p5 = p4 + rec.iso_639_3@;
    lemma_count_char_concat(p4, rec.iso_639_3@, '\n');
    let p6 = p5 + key_conf();
    lemma_count_char_concat(p5, key_conf(), '\n');
    let p7 = p6 + cc;
    lemma_count_char_concat(p6, cc, '\n');
    lemma_count_char_concat(p7, key_close(), '\n');
    assert(render_record_spec(rec) == p7 + key_close());
}

/// The report holds exactly one line terminator per record: as many lines
/// come out as records went in, and an empty record sequence yields empty
/// output.
pub proof fn lemma_report_line_count(recs: Seq<DetectedLanguage>)
    requires
        forall|i: int| 0 <= i < recs.len() ==> (#[trigger] recs[i]).wf(),
    ensures
        count_char(render_report_spec(recs), '\n') == recs.len(),
    decreases recs.len(),
{
    if recs.len() > 0 {
        assert forall|i: int| 0 <= i < recs.drop_last().len() implies (#[trigger] recs.drop_last()[i]).wf() by {
            assert(recs.drop_last()[i] == recs[i]);
        }
        lemma_report_line_count(recs.drop_last());
        lemma_render_record_no_newline(recs.last());
        assert(count_char(seq!['\n'], '\n') == 1) by {
            assert(seq!['\n'].drop_last() =~= Seq::<char>::empty());
            assert(count_char(Seq::<char>::empty(), '\n') == 0);
        }
        lemma_count_char_concat(
            render_report_spec(recs.drop_last()),
            render_record_spec(recs.last()),
            '\n',
        )
        ;
        lemma_count_char_concat(
            render_report_spec(recs.drop_last()) + render_record_spec(recs.last()),
            seq!['\n'],
            '\n',
        )
        ;
    }
}

/// Output accounting for a truncated report: rendering the first `n`
/// records emits exactly `n` lines, so the output record count equals the
/// configured limit wherever the limit cuts the candidate sequence.
pub proof fn lemma_truncated_report_line_count(recs: Seq<DetectedLanguage>, n: int)
    requires
        0 <= n <= recs.len(),
        forall|i: int| 0 <= i < recs.len() ==> (#[trigger] recs[i]).wf(),
    ensures
        count_char(render_report_spec(recs.take(n)), '\n') == n,
{
    assert forall|i: int| 0 <= i < recs.take(n).len() implies (#[trigger] recs.take(n)[i]).wf() by {
        assert(recs.take(n)[i] == recs[i]);
    }
    lemma_report_line_count(recs.take(n));
}

} // verus!
