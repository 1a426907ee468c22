use vstd::prelude::*;

verus! {

/// One segment of a transcript: start and end in centisecond ticks, and its text.
pub struct Segment {
    pub start: i64,
    pub end: i64,
    pub text: String,
}

/// What `str::trim` makes of a text: it depends on the characters alone.
pub uninterp spec fn trimmed(s: Seq<char>) -> Seq<char>;

/// Relies on `str::trim`: the text without its leading and trailing whitespace.
#[verifier::external_body]
fn trim_text(s: &str) -> (r: &str)
    ensures
        r@ == trimmed(s@),
{
    s.trim()
}

/// The character of a decimal digit `d` (0 to 9).
pub open spec fn digit_char(d: int) -> char {
    ((d + 48) as u8) as char
}

/// The decimal digits of `n`, most significant first, with no leading zero.
pub open spec fn decimal(n: nat) -> Seq<char>
    decreases n,
{
    if n < 10 {
        seq![digit_char(n as int)]
    } else {
        decimal(n / 10).push(digit_char((n % 10) as int))
    }
}

fn digit_str(d: u64) -> (r: &'static str)
    requires
        d < 10,
    ensures
        r@ == seq![digit_char(d as int)],
{
    proof {
        reveal_strlit("0");
        reveal_strlit("1");
        reveal_strlit("2");
        reveal_strlit("3");
        reveal_strlit("4");
        reveal_strlit("5");
        reveal_strlit("6");
        reveal_strlit("7");
        reveal_strlit("8");
        reveal_strlit("9");
    }
    match d {
        0 => "0",
        1 => "1",
        2 => "2",
        3 => "3",
        4 => "4",
        5 => "5",
        6 => "6",
        7 => "7",
        8 => "8",
        _ => "9",
    }
}

fn push_decimal(out: &mut String, n: u64)
    ensures
        final(out)@ == old(out)@ + decimal(n as nat),
    decreases n,
{
    if n >= 10 {
        push_decimal(out, n / 10);
    }
    out.append(digit_str(n % 10));
}

/// Seconds with exactly two decimals for a count of centisecond ticks, with a
/// leading minus sign for a negative count.
pub open spec fn centis_text(t: int) -> Seq<char> {
    let a: nat = if t < 0 { (-t) as nat } else { t as nat };
    let sign: Seq<char> = if t < 0 { seq!['-'] } else { seq![] };
    sign + decimal(a / 100) + seq!['.', digit_char(((a % 100) / 10) as int), digit_char((a % 10) as int)]
}

/// One line of the report for a segment whose printed text is `text`.
pub open spec fn line_text(start: int, end: int, text: Seq<char>) -> Seq<char> {
    seq!['['] + centis_text(start) + seq!['s', '-'] + centis_text(end) + seq!['s', ']', ' ']
        + text + seq!['\n']
}

/// The report line of a segment, its text trimmed.
pub open spec fn segment_text(seg: Segment) -> Seq<char> {
    line_text(seg.start as int, seg.end as int, trimmed(seg.text@))
}

/// The lines of all segments, in order.
pub open spec fn lines_text(segs: Seq<Segment>) -> Seq<char>
    decreases segs.len(),
{
    if segs.len() == 0 {
        seq![]
    } else {
        lines_text(segs.drop_last()) + segment_text(segs.last())
    }
}

/// The first line of every report.
pub open spec fn header_text() -> Seq<char> {
    "Transcription results:\n"@
}

/// Milliseconds rounded to the nearest centisecond, halves upward.
pub open spec fn round_to_centis(ms: nat) -> nat {
    (ms + 5) / 10
}

/// The last line of the report: the processing time in seconds.
pub open spec fn timing_text(ms: nat) -> Seq<char> {
    "Processing time: "@ + centis_text(round_to_centis(ms) as int) + " sec\n"@
}

/// The whole report for the given segments and processing time.
pub open spec fn report_text(segs: Seq<Segment>, ms: nat) -> Seq<char> {
    header_text() + lines_text(segs) + timing_text(ms)
}

fn push_centis(out: &mut String, t: i64)
    ensures
        final(out)@ == old(out)@ + centis_text(t as int),
{
    let a: u64 = if t < 0 {
        out.append("-");
        proof {
            reveal_strlit("-");
        }
        (-(t as i128)) as u64
    } else {
        t as u64
    };
    push_decimal(out, a / 100);
    out.append(".");
    proof {
        reveal_strlit(".");
    }
    push_decimal_digit(out, (a % 100) / 10);
    push_decimal_digit(out, a % 10);
}

fn push_decimal_digit(out: &mut String, d: u64)
    requires
        d < 10,
    ensures
        final(out)@ == old(out)@.push(digit_char(d as int)),
{
    out.append(digit_str(d));
}

/// Seconds with two decimals for `t` centisecond ticks (`-5` gives `-0.05`).
pub fn format_centis(t: i64) -> (r: String)
    ensures
        r@ == centis_text(t as int),
{
    let mut out = String::new();
    push_centis(&mut out, t);
    out
}

/// The report line `[start-end] text` for a segment whose text is already trimmed.
pub fn format_segment_line(start: i64, end: i64, text: &str) -> (r: String)
    ensures
        r@ == line_text(start as int, end as int, text@),
{
    let mut out = String::new();
    out.append("[");
    push_centis(&mut out, start);
    out.append("s-");
    push_centis(&mut out, end);
    out.append("s] ");
    out.append(text);
    out.append("\n");
    proof {
        reveal_strlit("[");
        reveal_strlit("s-");
        reveal_strlit("s] ");
        reveal_strlit("\n");
    }
    out
}

/// The report line of a segment, with its text trimmed.
pub fn segment_line(seg: &Segment) -> (r: String)
    ensures
        r@ == segment_text(*seg),
{
    format_segment_line(seg.start, seg.end, trim_text(seg.text.as_str()))
}

/// The whole report: a header line, one line per segment in order, and the
/// processing time of `elapsed_ms` milliseconds in seconds.
pub fn render_report(segs: &Vec<Segment>, elapsed_ms: u64) -> (r: String)
    ensures
        r@ == report_text(segs@, elapsed_ms as nat),
{
    let mut out = String::new();
    out.append("Transcription results:\n");
    let mut i: usize = 0;
    while i < segs.len()
        invariant
            i <= segs.len(),
            out@ == header_text() + lines_text(segs@.subrange(0, i as int)),
        decreases segs.len() - i,
    {
        let line = segment_line(&segs[i]);
        out.append(line.as_str());
        proof {
            let next = segs@.subrange(0, i + 1);
            assert(next.drop_last() =~= segs@.subrange(0, i as int));
        }
        i = i + 1;
    }
    assert(segs@.subrange(0, segs.len() as int) =~= segs@);
    out.append("Processing time: ");
    let centis: u64 = elapsed_ms / 10 + if elapsed_ms % 10 >= 5 { 1 } else { 0 };
    push_centis(&mut out, centis as i64);
    out.append(" sec\n");
    out
}

} // verus!

verus! {

/// Whether `c` is one of the characters `0` to `9`.
pub open spec fn is_digit(c: char) -> bool {
    48 <= (c as u32) <= 57
}

/// The value of a decimal digit character.
pub open spec fn digit_value(c: char) -> int {
    (c as u32) - 48
}

/// The value of a sequence of decimal digits, most significant first.
pub open spec fn decimal_value(s: Seq<char>) -> int
    decreases s.len(),
{
    if s.len() == 0 {
        0
    } else {
        decimal_value(s.drop_last()) * 10 + digit_value(s.last())
    }
}

/// The count of centiseconds that a text `[-]digits.dd` denotes.
pub open spec fn centis_value(s: Seq<char>) -> int {
    let neg = s.len() > 0 && s[0] == '-';
    let body = if neg { s.drop_first() } else { s };
    let v = decimal_value(body.remove(body.len() - 3));
    if neg { -v } else { v }
}

/// How many line breaks a text holds.
pub open spec fn newline_count(s: Seq<char>) -> nat
    decreases s.len(),
{
    if s.len() == 0 {
        0
    } else {
        newline_count(s.drop_last()) + if s.last() == '\n' { 1nat } else { 0nat }
    }
}

proof fn lemma_digit_char(d: int)
    requires
        0 <= d < 10,
    ensures
        is_digit(digit_char(d)),
        digit_value(digit_char(d)) == d,
{
}

proof fn lemma_decimal(n: nat)
    ensures
        decimal(n).len() > 0,
        forall|i: int| 0 <= i < decimal(n).len() ==> is_digit(#[trigger] decimal(n)[i]),
        decimal_value(decimal(n)) == n,
    decreases n,
{
    lemma_digit_char((n % 10) as int);
    if n >= 10 {
        lemma_decimal(n / 10);
        assert(decimal(n).drop_last() =~= decimal(n / 10));
        assert((n / 10) * 10 + n % 10 == n);
    } else {
        assert(decimal(n).drop_last() =~= Seq::<char>::empty());
        assert(decimal_value(Seq::<char>::empty()) == 0);
    }
}

proof fn lemma_newline_count_append(a: Seq<char>, b: Seq<char>)
    ensures
        newline_count(a + b) == newline_count(a) + newline_count(b),
    decreases b.len(),
{
    if b.len() == 0 {
        assert(a + b =~= a);
    } else {
        lemma_newline_count_append(a, b.drop_last());
        assert((a + b).drop_last() =~= a + b.drop_last());
    }
}

proof fn lemma_newline_free(s: Seq<char>)
    requires
        forall|i: int| 0 <= i < s.len() ==> s[i] != '\n',
    ensures
        newline_count(s) == 0,
    decreases s.len(),
{
    if s.len() > 0 {
        lemma_newline_free(s.drop_last());
    }
}

proof fn lemma_centis_newline_free(t: int)
    ensures
        newline_count(centis_text(t)) == 0,
{
    let a: nat = if t < 0 { (-t) as nat } else { t as nat };
    lemma_decimal(a / 100);
    lemma_digit_char(((a % 100) / 10) as int);
    lemma_digit_char((a % 10) as int);
    lemma_newline_free(centis_text(t));
}

/// Every tick count is written with an optional minus sign (present exactly
/// when the count is negative), decimal digits, a point and exactly two
/// decimals, and the text denotes exactly that many centiseconds.
pub proof fn lemma_centis_text_exact(t: int)
    ensures
        centis_text(t).len() >= 4,
        (centis_text(t)[0] == '-') == (t < 0),
        centis_text(t)[centis_text(t).len() - 3] == '.',
        forall|i: int|
            (if t < 0 { 1int } else { 0int }) <= i < centis_text(t).len() && i
                != centis_text(t).len() - 3 ==> is_digit(#[trigger] centis_text(t)[i]),
        centis_value(centis_text(t)) == t,
{
    let s = centis_text(t);
    let a: nat = if t < 0 { (-t) as nat } else { t as nat };
    let d1 = digit_char(((a % 100) / 10) as int);
    let d2 = digit_char((a % 10) as int);
    lemma_decimal(a / 100);
    lemma_digit_char(((a % 100) / 10) as int);
    lemma_digit_char((a % 10) as int);
    let body = if t < 0 { s.drop_first() } else { s };
    assert(body =~= decimal(a / 100) + seq!['.', d1, d2]);
    let digits = body.remove(body.len() - 3);
    assert(digits =~= decimal(a / 100).push(d1).push(d2));
    assert(digits.drop_last() =~= decimal(a / 100).push(d1));
    assert(digits.drop_last().drop_last() =~= decimal(a / 100));
    assert(decimal_value(digits.drop_last()) == (a / 100) * 10 + (a % 100) / 10);
    assert(decimal_value(digits) == (a / 100) * 100 + ((a % 100) / 10) * 10 + a % 10);
    assert((a / 100) * 100 + ((a % 100) / 10) * 10 + a % 10 == a) by (nonlinear_arith);
}

/// A report holds one line per segment, a header line before them and the
/// timing line after them, so long as no trimmed segment text breaks a line.
pub proof fn lemma_report_line_count(segs: Seq<Segment>, ms: nat)
    requires
        forall|i: int| 0 <= i < segs.len() ==> !trimmed(#[trigger] segs[i].text@).contains('\n'),
    ensures
        newline_count(report_text(segs, ms)) == segs.len() + 2,
        report_text(segs, ms).last() == '\n',
{
    reveal_strlit("Transcription results:\n");
    reveal_strlit("Processing time: ");
    reveal_strlit(" sec\n");
    lemma_lines_count(segs);
    lemma_newline_free("Processing time: "@);
    lemma_centis_newline_free(round_to_centis(ms) as int);
    lemma_newline_free(" sec\n"@.drop_last());
    lemma_newline_count_append("Processing time: "@, centis_text(round_to_centis(ms) as int));
    lemma_newline_count_append(
        "Processing time: "@ + centis_text(round_to_centis(ms) as int),
        " sec\n"@,
    );
    lemma_newline_free(header_text().drop_last());
    lemma_newline_count_append(header_text(), lines_text(segs));
    lemma_newline_count_append(header_text() + lines_text(segs), timing_text(ms));
}

proof fn lemma_lines_count(segs: Seq<Segment>)
    requires
        forall|i: int| 0 <= i < segs.len() ==> !trimmed(#[trigger] segs[i].text@).contains('\n'),
    ensures
        newline_count(lines_text(segs)) == segs.len(),
    decreases segs.len(),
{
    if segs.len() > 0 {
        let seg = segs.last();
        assert(segs.drop_last().len() == segs.len() - 1);
        assert forall|i: int| 0 <= i < segs.drop_last().len() implies !trimmed(
            #[trigger] segs.drop_last()[i].text@,
        ).contains('\n') by {
            assert(segs.drop_last()[i] == segs[i]);
        }
        lemma_lines_count(segs.drop_last());
        assert(!trimmed(segs[segs.len() - 1].text@).contains('\n'));
        let text = trimmed(seg.text@);
        lemma_newline_free(text);
        lemma_centis_newline_free(seg.start as int);
        lemma_centis_newline_free(seg.end as int);
        let l = segment_text(seg);
        let p1 = seq!['['] + centis_text(seg.start as int);
        let p2 = p1 + seq!['s', '-'];
        let p3 = p2 + centis_text(seg.end as int);
        let p4 = p3 + seq!['s', ']', ' '];
        let p5 = p4 + text;
        lemma_newline_free(seq!['[']);
        lemma_newline_free(seq!['s', '-']);
        lemma_newline_free(seq!['s', ']', ' ']);
        lemma_newline_count_append(seq!['['], centis_text(seg.start as int));
        lemma_newline_count_append(p1, seq!['s', '-']);
        lemma_newline_count_append(p2, centis_text(seg.end as int));
        lemma_newline_count_append(p3, seq!['s', ']', ' ']);
        lemma_newline_count_append(p4, text);
        lemma_newline_count_append(p5, seq!['\n']);
        assert(newline_count(seq!['\n']) == 1) by {
            assert(seq!['\n'].drop_last() =~= Seq::<char>::empty());
            assert(newline_count(Seq::<char>::empty()) == 0);
        }
        lemma_newline_count_append(lines_text(segs.drop_last()), l);
    }
}

/// Two reports of the same segments differ at most in their last line, the
/// processing time, which is a single line.
pub proof fn lemma_report_differs_only_in_timing(segs: Seq<Segment>, a: nat, b: nat)
    ensures
        ({
            let body = header_text() + lines_text(segs);
            &&& report_text(segs, a).subrange(0, body.len() as int) == body
            &&& report_text(segs, b).subrange(0, body.len() as int) == body
            &&& newline_count(timing_text(a)) == 1
            &&& timing_text(a).last() == '\n'
        }),
{
    let body = header_text() + lines_text(segs);
    assert(report_text(segs, a).subrange(0, body.len() as int) =~= body);
    assert(report_text(segs, b).subrange(0, body.len() as int) =~= body);
    reveal_strlit("Processing time: ");
    reveal_strlit(" sec\n");
    lemma_newline_free("Processing time: "@);
    lemma_centis_newline_free(round_to_centis(a) as int);
    lemma_newline_count_append("Processing time: "@, centis_text(round_to_centis(a) as int));
    lemma_newline_free(" sec\n"@.drop_last());
    lemma_newline_count_append(
        "Processing time: "@ + centis_text(round_to_centis(a) as int),
        " sec\n"@,
    );
}

} // verus!
