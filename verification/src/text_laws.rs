//! What is read from a text, and what is written to one.
use crate::reporter;
use crate::text;
use vstd::prelude::*;

verus! {

/// Whether a text is white space throughout.
pub open spec fn all_space(s: Seq<char>) -> bool {
    forall|i: int| 0 <= i < s.len() ==> text::is_space(#[trigger] s[i])
}

/// Whether a text neither starts nor ends with white space.
pub open spec fn tight(s: Seq<char>) -> bool {
    s.len() > 0 ==> !text::is_space(s[0]) && !text::is_space(s[s.len() - 1])
}

/// Which characters are white space, by their code points.
pub proof fn white_space_by_code_point(c: char, r: bool)
    requires
        call_ensures(text::is_white_space, (c,), r),
    ensures
        r <==> (9 <= c as int <= 13 || c == ' ' || c as int == 133 || c as int == 160 || c as int
            == 5760 || 8192 <= c as int <= 8202 || c as int == 8232 || c as int == 8233 || c as int
            == 8239 || c as int == 8287 || c as int == 12288),
        r == text::is_space(c),
{
}

/// Trimming takes the white space off both ends, all of it and nothing else.
pub proof fn trimming_takes_off_both_ends(lead: Seq<char>, t: Seq<char>, trail: Seq<char>)
    requires
        all_space(lead),
        tight(t),
        all_space(trail),
    ensures
        text::trimmed(lead + t + trail) == t,
{
    if t.len() == 0 {
        let s = lead + t + trail;
        assert forall|i: int| 0 <= i < s.len() implies text::is_space(#[trigger] s[i]) by {
            if i < lead.len() {
                assert(s[i] == lead[i]);
            } else {
                assert(s[i] == trail[i - lead.len()]);
            }
        }
        leading_space_goes(s, Seq::empty());
        assert(s + Seq::<char>::empty() =~= s);
        assert(t =~= Seq::<char>::empty());
    } else {
        assert(lead + t + trail =~= lead + (t + trail));
        leading_space_goes(lead, t + trail);
        trailing_space_goes(t, trail);
    }
}

/// Leading white space goes.
pub proof fn leading_space_goes(lead: Seq<char>, t: Seq<char>)
    requires
        all_space(lead),
        t.len() > 0 ==> !text::is_space(t[0]),
    ensures
        text::trim_start(lead + t) == t,
    decreases lead.len(),
{
    let s = lead + t;
    if lead.len() > 0 {
        assert(text::is_space(lead[0]));
        let less = lead.skip(1);
        assert forall|i: int| 0 <= i < less.len() implies text::is_space(#[trigger] less[i]) by {
            assert(less[i] == lead[i + 1]);
        }
        leading_space_goes(less, t);
        assert(s.skip(1) =~= less + t);
    } else {
        assert(s =~= t);
    }
}

/// Trailing white space goes.
pub proof fn trailing_space_goes(t: Seq<char>, trail: Seq<char>)
    requires
        all_space(trail),
        t.len() > 0 ==> !text::is_space(t[t.len() - 1]),
    ensures
        text::trim_end(t + trail) == t,
    decreases trail.len(),
{
    let s = t + trail;
    if trail.len() > 0 {
        assert(text::is_space(trail[trail.len() - 1]));
        let less = trail.drop_last();
        assert forall|i: int| 0 <= i < less.len() implies text::is_space(#[trigger] less[i]) by {
            assert(less[i] == trail[i]);
        }
        trailing_space_goes(t, less);
        assert(s.drop_last() =~= t + less);
        assert(s.last() == trail.last());
    } else {
        assert(s =~= t);
    }
}

/// An unsigned numeral is read digit by digit: one digit stands for itself; one more behind a numeral
/// makes ten times as much and the digit; a plus sign in front changes nothing; and anything else
/// makes it no numeral. A number that does not fit is not read.
pub proof fn unsigned_numerals_are_read_digit_by_digit(
    s: &str,
    r: Option<usize>,
    front: &str,
    q: Option<usize>,
    c: char,
)
    requires
        call_ensures(text::parse_usize, (s,), r),
        call_ensures(text::parse_usize, (front,), q),
        s@ == front@.push(c),
    ensures
        ({
            let digit = '0' <= c <= '9';
            let d = c as int - 48;
            let first = front@.len() == 0 || front@ == seq!['+'];
            &&& !digit ==> r is None
            &&& digit && first ==> r is Some && r->0 == d
            &&& digit && q is Some && q->0 * 10 + d <= usize::MAX ==> r is Some && r->0 == q->0 * 10
                + d
            &&& digit && q is Some && q->0 * 10 + d > usize::MAX ==> r is None
            &&& !first && q is None ==> r is None
        }),
{
    let a = front@;
    let b = s@;
    let plus = a.len() > 0 && a[0] == '+';
    if plus {
        assert(b.skip(1) =~= a.skip(1).push(c));
        one_more_digit(a.skip(1), c);
        if a.len() == 1 {
            assert(a =~= seq!['+']);
            assert(a.skip(1) =~= Seq::<char>::empty());
        }
    } else {
        one_more_digit(a, c);
        if a.len() == 0 && c == '+' {
            assert(b.skip(1) =~= Seq::<char>::empty());
        }
    }
}

proof fn one_more_digit(a: Seq<char>, c: char)
    ensures
        ({
            let b = a.push(c);
            let digit = 48 <= c as int <= 57;
            &&& !digit ==> text::digits(b) is None
            &&& digit && a.len() == 0 ==> text::digits(b) == Some(c as int - 48)
            &&& digit && text::digits(a) is Some ==> text::digits(b) == Some(
                text::digits(a)->0 * 10 + (c as int - 48),
            )
            &&& a.len() > 0 && text::digits(a) is None ==> text::digits(b) is None
            &&& text::digits(a) is Some ==> text::digits(a)->0 >= 0
            &&& a.len() == 0 ==> text::digits(a) is None
        }),
{
    let b = a.push(c);
    assert(b.drop_last() =~= a);
    assert(b.last() == c);
    assert(b[a.len() as int] == c);
    if text::all_digits(b) {
        assert(text::is_digit(b[a.len() as int]));
        assert forall|i: int| 0 <= i < a.len() implies text::is_digit(#[trigger] a[i]) by {
            assert(text::is_digit(b[i]));
        }
    }
    if text::all_digits(a) && text::is_digit(c) {
        assert forall|i: int| 0 <= i < b.len() implies text::is_digit(#[trigger] b[i]) by {
            if i < a.len() {
                assert(text::is_digit(a[i]));
            }
        }
    }
    if a.len() == 0 {
        assert(text::digits_value(a) == 0);
    }
}

/// A signed numeral is an unsigned one, or one with a minus sign in front, which turns it round; the
/// narrower reading agrees with the wider one as far as it goes.
pub proof fn signed_numerals_turn_round(
    s: &str,
    r: Option<i64>,
    narrow: Option<i32>,
    t: &str,
    q: Option<i64>,
)
    requires
        call_ensures(text::parse_i64, (s,), r),
        call_ensures(text::parse_i32, (s,), narrow),
        call_ensures(text::parse_i64, (t,), q),
        t@ == seq!['-'] + s@,
        s@.len() > 0 ==> s@[0] != '+' && s@[0] != '-',
    ensures
        r is Some ==> q is Some && q->0 == -r->0,
        r is Some ==> r->0 >= 0,
        q is Some && q->0 > i64::MIN ==> r is Some && r->0 == -q->0,
        narrow is Some <==> r is Some && i32::MIN <= r->0 <= i32::MAX,
        narrow is Some ==> narrow->0 == r->0,
{
    assert(t@.skip(1) =~= s@);
    if text::digits(s@) is Some {
        assert(text::digits(s@)->0 >= 0);
    }
}

/// A numeral without a sign, or with a plus sign, is read alike by all three readers, as far as the
/// number fits.
pub proof fn numerals_are_read_alike(
    s: &str,
    wide: Option<i64>,
    narrow: Option<i32>,
    unsigned: Option<usize>,
)
    requires
        call_ensures(text::parse_i64, (s,), wide),
        call_ensures(text::parse_i32, (s,), narrow),
        call_ensures(text::parse_usize, (s,), unsigned),
        s@.len() > 0 ==> s@[0] != '-',
    ensures
        unsigned is Some && unsigned->0 <= i64::MAX ==> wide is Some && wide->0 == unsigned->0,
        wide is Some && wide->0 <= usize::MAX ==> unsigned is Some && unsigned->0 == wide->0,
        wide is Some ==> wide->0 >= 0,
        narrow is Some <==> wide is Some && i32::MIN <= wide->0 <= i32::MAX,
        narrow is Some ==> narrow->0 == wide->0,
{
    let plus = s@.len() > 0 && s@[0] == '+';
    if text::unsigned_numeral(s@) is Some {
        assert(text::unsigned_numeral(s@)->0 >= 0);
    }
}

/// A number is written without leading zeros, in digits alone, and is read back as it was.
pub proof fn numbers_are_written_plainly(out: &mut String, n: u64, s: &str, r: Option<usize>)
    requires
        call_ensures(text::push_decimal, (out, n), ()),
        old(out)@.len() == 0,
        s@ == final(out)@,
        call_ensures(text::parse_usize, (s,), r),
        n <= usize::MAX,
    ensures
        r is Some && r->0 == n,
        s@.len() > 0,
        forall|i: int| 0 <= i < s@.len() ==> '0' <= (#[trigger] s@[i]) <= '9',
        s@[0] == '0' ==> s@.len() == 1,
{
    text::decimal_reads_back(n as nat);
    assert(s@ =~= text::decimal(n as nat));
    assert forall|i: int| 0 <= i < s@.len() implies '0' <= (#[trigger] s@[i]) <= '9' by {
        assert(text::is_digit(text::decimal(n as nat)[i]));
    }
    no_leading_zero(n as nat);
}

proof fn no_leading_zero(n: nat)
    ensures
        text::decimal(n).len() > 0,
        text::decimal(n)[0] == '0' ==> n == 0,
        n < 10 ==> text::decimal(n).len() == 1,
    decreases n,
{
    if n >= 10 {
        no_leading_zero(n / 10);
        assert(text::decimal(n)[0] == text::decimal(n / 10)[0]);
    }
}

/// What is written goes behind what was there; a negative number is written as its counterpart with
/// a minus sign in front.
pub proof fn numbers_are_appended(
    a: &mut String,
    b: &mut String,
    n: i64,
    m: u64,
)
    requires
        call_ensures(text::push_signed_decimal, (a, n), ()),
        call_ensures(text::push_decimal, (b, m), ()),
        old(b)@.len() == 0,
        m == (if n < 0 {
            -n
        } else {
            n as int
        }),
    ensures
        final(a)@ == old(a)@ + (if n < 0 {
            seq!['-'] + final(b)@
        } else {
            final(b)@
        }),
{
    assert(final(b)@ =~= text::decimal(m as nat));
}

/// A list of targets may be cut at any comma: the targets of the whole are those of the one part and
/// then those of the other.
pub proof fn targets_are_listed_between_commas(
    whole: &str,
    a: &str,
    b: &str,
    r: Vec<String>,
    ra: Vec<String>,
    rb: Vec<String>,
)
    requires
        whole@ == a@.push(',') + b@,
        call_ensures(reporter::scrape_targets, (whole,), r),
        call_ensures(reporter::scrape_targets, (a,), ra),
        call_ensures(reporter::scrape_targets, (b,), rb),
    ensures
        crate::objects::texts_view(r@) == crate::objects::texts_view(ra@)
            + crate::objects::texts_view(rb@),
{
    text::pieces_of_joined_texts(a@, b@, ',');
    let trim = |p: Seq<char>| text::trimmed(p);
    let p = text::pieces(a@, ',');
    let q = text::pieces(b@, ',');
    assert((p + q).map_values(trim) =~= p.map_values(trim) + q.map_values(trim));
    Seq::filter_distributes_over_add(
        p.map_values(trim),
        q.map_values(trim),
        reporter::non_empty(),
    );
}

/// A text without a comma is one target, without the white space around it, and none if there is
/// nothing else in it.
pub proof fn one_target_is_listed_trimmed(
    raw: &str,
    r: Vec<String>,
    lead: Seq<char>,
    t: Seq<char>,
    trail: Seq<char>,
)
    requires
        raw@ == lead + t + trail,
        all_space(lead),
        tight(t),
        all_space(trail),
        !raw@.contains(','),
        call_ensures(reporter::scrape_targets, (raw,), r),
    ensures
        t.len() == 0 ==> r@.len() == 0,
        t.len() > 0 ==> r@.len() == 1 && r@[0]@ == t,
{
    text::unseparated_text_is_one_piece(raw@, ',');
    trimming_takes_off_both_ends(lead, t, trail);
    let trim = |p: Seq<char>| text::trimmed(p);
    let one = seq![raw@].map_values(trim);
    assert(one =~= seq![t]);
    reveal(Seq::filter);
    assert(one.drop_last() =~= Seq::<Seq<char>>::empty());
    assert(one.drop_last().filter(reporter::non_empty()) =~= Seq::<Seq<char>>::empty());
    assert(one.last() == t);
    let views = crate::objects::texts_view(r@);
    assert(views.len() == r@.len());
    if t.len() > 0 {
        assert(reporter::non_empty()(t));
        assert(one.filter(reporter::non_empty()) =~= seq![t]);
        assert(views[0] == r@[0]@);
    } else {
        assert(!reporter::non_empty()(t));
    }
}

} // verus!
