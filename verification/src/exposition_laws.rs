//! What a line of exposed metrics says, whatever its labels are.
use crate::exposition;
use crate::exposition::LabelState;
use crate::objects;
use crate::text;
use crate::text_laws;
use vstd::prelude::*;

verus! {

/// A label: its name and its value.
pub type Label = (Seq<char>, Seq<char>);

/// Whether a text can be the name of a label: letters, digits and underscores, no digit first.
pub open spec fn is_label_name(s: Seq<char>) -> bool {
    &&& s.len() > 0
    &&& !('0' <= s[0] <= '9')
    &&& forall|i: int|
        0 <= i < s.len() ==> 'a' <= #[trigger] s[i] <= 'z' || 'A' <= s[i] <= 'Z' || s[i] == '_' || '0'
            <= s[i] <= '9'
}

/// A text as it stands between quotes: with a backslash before quotes and backslashes, and a line
/// break as a backslash and an `n`.
pub open spec fn quoted(s: Seq<char>) -> Seq<char>
    decreases s.len(),
{
    if s.len() == 0 {
        Seq::empty()
    } else if s[0] == '"' {
        seq!['\\', '"'] + quoted(s.skip(1))
    } else if s[0] == '\\' {
        seq!['\\', '\\'] + quoted(s.skip(1))
    } else if s[0] == '\n' {
        seq!['\\', 'n'] + quoted(s.skip(1))
    } else {
        seq![s[0]] + quoted(s.skip(1))
    }
}

/// A label as it is written.
pub open spec fn written_label(l: Label) -> Seq<char> {
    l.0 + seq!['=', '"'] + quoted(l.1) + seq!['"']
}

/// Labels as they are written, with commas between them.
pub open spec fn written_labels(labels: Seq<Label>) -> Seq<char>
    decreases labels.len(),
{
    if labels.len() == 0 {
        Seq::empty()
    } else if labels.len() == 1 {
        written_label(labels[0])
    } else {
        written_label(labels[0]) + seq![','] + written_labels(labels.skip(1))
    }
}

/// A set of labels as it is written.
pub open spec fn written_set(labels: Seq<Label>) -> Seq<char> {
    seq!['{'] + written_labels(labels) + seq!['}']
}

/// Whether all labels of a list have names that labels can have.
pub open spec fn well_named(labels: Seq<Label>) -> bool {
    forall|i: int| 0 <= i < labels.len() ==> is_label_name((#[trigger] labels[i]).0)
}

/// A name is read to its end.
proof fn name_is_read(name: Seq<char>, rest: Seq<char>)
    requires
        forall|i: int|
            0 <= i < name.len() ==> 'a' <= #[trigger] name[i] <= 'z' || 'A' <= name[i] <= 'Z'
                || name[i] == '_' || '0' <= name[i] <= '9',
    ensures
        exposition::after_label_set(name + rest, LabelState::Name) == exposition::after_label_set(
            rest,
            LabelState::Name,
        ),
    decreases name.len(),
{
    let s = name + rest;
    if name.len() > 0 {
        let less = name.skip(1);
        assert forall|i: int| 0 <= i < less.len() implies 'a' <= #[trigger] less[i] <= 'z' || 'A'
            <= less[i] <= 'Z' || less[i] == '_' || '0' <= less[i] <= '9' by {
            assert(less[i] == name[i + 1]);
        }
        name_is_read(less, rest);
        assert(s.skip(1) =~= less + rest);
        assert(s[0] == name[0]);
        assert(exposition::label_state_after(LabelState::Name, s[0]) == Some(LabelState::Name));
    } else {
        assert(s =~= rest);
    }
}

/// A quoted value is read to its closing quote.
proof fn value_is_read(value: Seq<char>, rest: Seq<char>)
    ensures
        exposition::after_label_set(quoted(value) + seq!['"'] + rest, LabelState::Value)
            == exposition::after_label_set(rest, LabelState::After),
    decreases value.len(),
{
    let s = quoted(value) + seq!['"'] + rest;
    if value.len() == 0 {
        assert(s[0] == '"');
        assert(s.skip(1) =~= rest);
    } else {
        let less = quoted(value.skip(1)) + seq!['"'] + rest;
        value_is_read(value.skip(1), rest);
        if value[0] == '"' || value[0] == '\\' || value[0] == '\n' {
            assert(s[0] == '\\');
            assert(s.skip(1).skip(1) =~= less);
            assert(exposition::after_label_set(s.skip(1), LabelState::Escape)
                == exposition::after_label_set(less, LabelState::Value));
        } else {
            assert(s[0] == value[0]);
            assert(s.skip(1) =~= less);
        }
    }
}

/// A label is read to its end.
proof fn label_is_read(l: Label, rest: Seq<char>)
    requires
        is_label_name(l.0),
    ensures
        exposition::after_label_set(written_label(l) + rest, LabelState::Before)
            == exposition::after_label_set(rest, LabelState::After),
{
    let s = written_label(l) + rest;
    let tail = quoted(l.1) + seq!['"'] + rest;
    let less = l.0.skip(1);
    let behind = seq!['=', '"'] + tail;
    assert(s[0] == l.0[0]);
    assert(s.skip(1) =~= less + behind);
    assert forall|i: int| 0 <= i < less.len() implies 'a' <= #[trigger] less[i] <= 'z' || 'A'
        <= less[i] <= 'Z' || less[i] == '_' || '0' <= less[i] <= '9' by {
        assert(less[i] == l.0[i + 1]);
    }
    assert(exposition::label_state_after(LabelState::Before, s[0]) == Some(LabelState::Name));
    name_is_read(less, behind);
    assert(behind[0] == '=');
    let third = behind.skip(1);
    assert(third[0] == '"');
    assert(third.skip(1) =~= tail);
    assert(exposition::after_label_set(behind, LabelState::Name) == exposition::after_label_set(
        third,
        LabelState::Equals,
    ));
    assert(exposition::after_label_set(third, LabelState::Equals) == exposition::after_label_set(
        tail,
        LabelState::Value,
    ));
    value_is_read(l.1, rest);
}

/// A list of labels is read to the closing brace.
proof fn labels_are_read(labels: Seq<Label>, rest: Seq<char>)
    requires
        well_named(labels),
    ensures
        exposition::after_label_set(
            written_labels(labels) + seq!['}'] + rest,
            LabelState::Before,
        ) == Some(rest),
    decreases labels.len(),
{
    let end = seq!['}'] + rest;
    assert(end[0] == '}' && end.skip(1) =~= rest);
    let s = written_labels(labels) + seq!['}'] + rest;
    if labels.len() == 0 {
        assert(s =~= end);
    } else {
        assert(is_label_name(labels[0].0));
        if labels.len() == 1 {
            label_is_read(labels[0], end);
            assert(s =~= written_label(labels[0]) + end);
        } else {
            let more = labels.skip(1);
            assert forall|i: int| 0 <= i < more.len() implies is_label_name(
                (#[trigger] more[i]).0,
            ) by {
                assert(more[i] == labels[i + 1]);
            }
            labels_are_read(more, rest);
            let behind = written_labels(more) + seq!['}'] + rest;
            let comma = seq![','] + behind;
            assert(comma[0] == ',' && comma.skip(1) =~= behind);
            label_is_read(labels[0], comma);
            assert(s =~= written_label(labels[0]) + comma);
        }
    }
}

/// Whatever the labels are, and whatever stands in their values, what follows their set is what
/// follows its closing brace.
pub proof fn a_set_of_labels_ends_at_its_own_brace(labels: Seq<Label>, rest: Seq<char>)
    requires
        well_named(labels),
    ensures
        exposition::after_labels(written_set(labels) + rest) == Some(rest),
{
    let s = written_set(labels) + rest;
    labels_are_read(labels, rest);
    assert(s.skip(1) =~= written_labels(labels) + seq!['}'] + rest);
}

/// Whether a text can be the name of a family on a line: not empty, without white space around it,
/// and not a comment.
pub open spec fn is_family(s: Seq<char>) -> bool {
    s.len() > 0 && text_laws::tight(s) && s[0] != '#'
}

/// Whether a text is a value on a line and what follows it: one word, and then nothing, or white
/// space and anything that does not end in white space.
pub open spec fn is_value_and_rest(value: Seq<char>, rest: Seq<char>) -> bool {
    &&& exposition::is_word(value)
    &&& rest.len() > 0 ==> text::is_space(rest[0]) && !text::is_space(rest[rest.len() - 1])
}

proof fn word_ends_at_space(value: Seq<char>, rest: Seq<char>)
    requires
        forall|i: int| 0 <= i < value.len() ==> !text::is_space(#[trigger] value[i]),
        rest.len() > 0 ==> text::is_space(rest[0]),
    ensures
        exposition::word(value + rest) == value,
    decreases value.len(),
{
    let s = value + rest;
    if value.len() > 0 {
        assert(!text::is_space(value[0]));
        let less = value.skip(1);
        assert forall|i: int| 0 <= i < less.len() implies !text::is_space(#[trigger] less[i]) by {
            assert(less[i] == value[i + 1]);
        }
        word_ends_at_space(less, rest);
        assert(s.skip(1) =~= less + rest);
        assert(s[0] == value[0]);
        assert(seq![value[0]] + less =~= value);
    } else {
        assert(s =~= rest);
        assert(exposition::word(rest) =~= value);
    }
}

/// The first word behind white space.
proof fn first_word_behind_space(gap: Seq<char>, value: Seq<char>, rest: Seq<char>)
    requires
        text_laws::all_space(gap),
        is_value_and_rest(value, rest),
    ensures
        exposition::first_word(gap + value + rest) == Some(value),
{
    let t = value + rest;
    assert(!text::is_space(value[0]));
    assert(t[0] == value[0]);
    text_laws::leading_space_goes(gap, t);
    assert(gap + value + rest =~= gap + t);
    word_ends_at_space(value, rest);
}

/// A sample with labels: a line of the family's name, a set of labels, a value, and perhaps more
/// behind it, is a sample with that value, for every word and every set of labels, with white space
/// around it or without.
pub proof fn a_labelled_line_is_a_sample(
    lead: Seq<char>,
    family: Seq<char>,
    labels: Seq<Label>,
    gap: Seq<char>,
    value: Seq<char>,
    rest: Seq<char>,
    trail: Seq<char>,
)
    requires
        text_laws::all_space(lead),
        is_family(family),
        well_named(labels),
        text_laws::all_space(gap),
        is_value_and_rest(value, rest),
        text_laws::all_space(trail),
    ensures
        exposition::sample_value(
            lead + (family + written_set(labels) + gap + value + rest) + trail,
            family,
        ) == Some(value),
{
    let tail = gap + value + rest;
    let line = family + written_set(labels) + gap + value + rest;
    assert(line =~= family + (written_set(labels) + tail));
    assert(line[0] == family[0]);
    assert(!text::is_space(value[value.len() - 1]));
    if rest.len() > 0 {
        assert(line[line.len() - 1] == rest[rest.len() - 1]);
    } else {
        assert(line[line.len() - 1] == value[value.len() - 1]);
    }
    text_laws::trimming_takes_off_both_ends(lead, line, trail);
    assert(family =~= line.subrange(0, family.len() as int));
    let behind = line.skip(family.len() as int);
    assert(behind =~= written_set(labels) + tail);
    assert(behind[0] == '{');
    a_set_of_labels_ends_at_its_own_brace(labels, tail);
    first_word_behind_space(gap, value, rest);
}

/// A sample without labels: a line of the family's name, white space, a value, and perhaps more
/// behind it, is a sample with that value.
pub proof fn an_unlabelled_line_is_a_sample(
    lead: Seq<char>,
    family: Seq<char>,
    gap: Seq<char>,
    value: Seq<char>,
    rest: Seq<char>,
    trail: Seq<char>,
)
    requires
        text_laws::all_space(lead),
        is_family(family),
        gap.len() > 0,
        text_laws::all_space(gap),
        is_value_and_rest(value, rest),
        text_laws::all_space(trail),
    ensures
        exposition::sample_value(lead + (family + gap + value + rest) + trail, family) == Some(
            value,
        ),
{
    let tail = gap + value + rest;
    let line = family + gap + value + rest;
    assert(line =~= family + tail);
    assert(line[0] == family[0]);
    assert(!text::is_space(value[value.len() - 1]));
    if rest.len() > 0 {
        assert(line[line.len() - 1] == rest[rest.len() - 1]);
    } else {
        assert(line[line.len() - 1] == value[value.len() - 1]);
    }
    text_laws::trimming_takes_off_both_ends(lead, line, trail);
    assert(family =~= line.subrange(0, family.len() as int));
    let behind = line.skip(family.len() as int);
    assert(behind =~= tail);
    assert(text::is_space(gap[0]));
    assert(behind[0] == gap[0]);
    assert(behind[0] != '{');
    first_word_behind_space(gap, value, rest);
}

/// Labels make no difference to the value: a line with them reads as the line without.
pub proof fn labels_make_no_difference(
    family: Seq<char>,
    labels: Seq<Label>,
    value: Seq<char>,
)
    requires
        is_family(family),
        well_named(labels),
        exposition::is_word(value),
    ensures
        exposition::sample_value(family + written_set(labels) + seq![' '] + value, family)
            == exposition::sample_value(family + seq![' '] + value, family),
        exposition::sample_value(family + seq![' '] + value, family) == Some(value),
{
    let none = Seq::<char>::empty();
    let gap = seq![' '];
    assert(text::is_space(' '));
    a_labelled_line_is_a_sample(none, family, labels, gap, value, none, none);
    an_unlabelled_line_is_a_sample(none, family, gap, value, none, none);
    assert(none + (family + written_set(labels) + gap + value + none) + none =~= family
        + written_set(labels) + gap + value);
    assert(none + (family + gap + value + none) + none =~= family + gap + value);
}

/// Labels without quotes are cut at the first closing brace, whatever else they hold.
pub proof fn labels_without_quotes_end_at_the_first_brace(
    family: Seq<char>,
    inner: Seq<char>,
    gap: Seq<char>,
    value: Seq<char>,
)
    requires
        is_family(family),
        !inner.contains('}'),
        !inner.contains('"'),
        text_laws::all_space(gap),
        exposition::is_word(value),
    ensures
        exposition::sample_value(family + seq!['{'] + inner + seq!['}'] + gap + value, family)
            == Some(value),
{
    let none = Seq::<char>::empty();
    let tail = gap + value;
    let line = family + seq!['{'] + inner + seq!['}'] + gap + value;
    let behind = seq!['{'] + inner + seq!['}'] + tail;
    assert(line =~= family + behind);
    assert(line[0] == family[0]);
    assert(!text::is_space(value[value.len() - 1]));
    assert(line[line.len() - 1] == value[value.len() - 1]);
    text_laws::trimming_takes_off_both_ends(none, line, none);
    assert(none + line + none =~= line);
    assert(family =~= line.subrange(0, family.len() as int));
    assert(line.skip(family.len() as int) =~= behind);
    assert(behind[0] == '{');
    assert(behind.skip(1) =~= inner + seq!['}'] + tail);
    no_quotes_no_values(inner, tail, LabelState::Before);
    assert forall|i: int| 0 <= i < (seq!['{'] + inner).len() implies (seq!['{'] + inner)[i]
        != '}' by {
        if i > 0 {
            assert((seq!['{'] + inner)[i] == inner[i - 1]);
        }
    }
    brace_is_found(seq!['{'] + inner, tail);
    assert(gap + value + none =~= tail);
    first_word_behind_space(gap, value, none);
}

proof fn no_quotes_no_values(inner: Seq<char>, rest: Seq<char>, state: LabelState)
    requires
        !inner.contains('}'),
        !inner.contains('"'),
        state != LabelState::Value,
        state != LabelState::Escape,
    ensures
        ({
            let r = exposition::after_label_set(inner + seq!['}'] + rest, state);
            r is None || r == Some(rest)
        }),
    decreases inner.len(),
{
    let s = inner + seq!['}'] + rest;
    if inner.len() == 0 {
        assert(s[0] == '}');
        assert(s.skip(1) =~= rest);
    } else {
        let less = inner.skip(1);
        assert(inner[0] != '}' && inner[0] != '"') by {
            assert(inner.contains(inner[0]));
        }
        assert forall|c: char| less.contains(c) implies inner.contains(c) by {
            let i = choose|i: int| 0 <= i < less.len() && less[i] == c;
            assert(inner[i + 1] == c);
        }
        assert(s.skip(1) =~= less + seq!['}'] + rest);
        assert(s[0] == inner[0]);
        match exposition::label_state_after(state, s[0]) {
            None => {},
            Some(next) => {
                assert(next != LabelState::Value && next != LabelState::Escape && next
                    != LabelState::Closed);
                no_quotes_no_values(less, rest, next);
            },
        }
    }
}

proof fn brace_is_found(inner: Seq<char>, rest: Seq<char>)
    requires
        forall|i: int| 0 <= i < inner.len() ==> inner[i] != '}',
    ensures
        exposition::after_first_brace(inner + seq!['}'] + rest) == Some(rest),
    decreases inner.len(),
{
    let s = inner + seq!['}'] + rest;
    if inner.len() == 0 {
        assert(s[0] == '}');
        assert(s.skip(1) =~= rest);
    } else {
        let less = inner.skip(1);
        assert(s.skip(1) =~= less + seq!['}'] + rest);
        assert(s[0] == inner[0]);
        brace_is_found(less, rest);
    }
}

/// A set of labels whose last value is never closed is cut at the first closing brace as well.
pub proof fn an_unclosed_value_ends_at_the_first_brace(
    family: Seq<char>,
    name: Seq<char>,
    inner: Seq<char>,
    gap: Seq<char>,
    value: Seq<char>,
)
    requires
        is_family(family),
        is_label_name(name),
        !inner.contains('}'),
        !(inner + gap + value).contains('"'),
        text_laws::all_space(gap),
        exposition::is_word(value),
    ensures
        exposition::sample_value(
            family + seq!['{'] + name + seq!['=', '"'] + inner + seq!['}'] + gap + value,
            family,
        ) == Some(value),
{
    let none = Seq::<char>::empty();
    let tail = gap + value;
    let set = seq!['{'] + name + seq!['=', '"'] + inner;
    let line = family + seq!['{'] + name + seq!['=', '"'] + inner + seq!['}'] + gap + value;
    let behind = set + seq!['}'] + tail;
    assert(line =~= family + behind);
    assert(line[0] == family[0]);
    assert(!text::is_space(value[value.len() - 1]));
    assert(line[line.len() - 1] == value[value.len() - 1]);
    text_laws::trimming_takes_off_both_ends(none, line, none);
    assert(none + line + none =~= line);
    assert(family =~= line.subrange(0, family.len() as int));
    assert(line.skip(family.len() as int) =~= behind);
    assert(behind[0] == '{');
    let open = inner + seq!['}'] + tail;
    let less = name.skip(1);
    let third = seq!['"'] + open;
    let second = seq!['='] + third;
    assert(behind.skip(1).skip(1) =~= less + second);
    assert(behind.skip(1)[0] == name[0]);
    assert(exposition::label_state_after(LabelState::Before, name[0]) == Some(LabelState::Name));
    assert forall|i: int| 0 <= i < less.len() implies 'a' <= #[trigger] less[i] <= 'z' || 'A'
        <= less[i] <= 'Z' || less[i] == '_' || '0' <= less[i] <= '9' by {
        assert(less[i] == name[i + 1]);
    }
    name_is_read(less, second);
    assert(second[0] == '=' && second.skip(1) =~= third);
    assert(third[0] == '"' && third.skip(1) =~= open);
    assert forall|i: int| 0 <= i < open.len() implies open[i] != '"' by {
        let parts = inner + gap + value;
        if i < inner.len() {
            assert(parts[i] == open[i]);
            assert(parts.contains(open[i]));
        } else if i > inner.len() {
            assert(parts[i - 1] == open[i]);
            assert(parts.contains(open[i]));
        }
    }
    open_value_has_no_end(open, false);
    assert(exposition::after_label_set(third, LabelState::Equals) == exposition::after_label_set(
        open,
        LabelState::Value,
    ));
    assert(exposition::after_label_set(second, LabelState::Name) == exposition::after_label_set(
        third,
        LabelState::Equals,
    ));
    assert forall|i: int| 0 <= i < set.len() implies set[i] != '}' by {
        if i > name.len() + 2 {
            assert(set[i] == inner[i - name.len() - 3]);
            assert(inner.contains(set[i]));
        } else if 0 < i <= name.len() {
            assert(set[i] == name[i - 1]);
        }
    }
    brace_is_found(set, tail);
    assert(gap + value + none =~= tail);
    first_word_behind_space(gap, value, none);
}

proof fn open_value_has_no_end(s: Seq<char>, escaped: bool)
    requires
        forall|i: int| 0 <= i < s.len() ==> s[i] != '"',
    ensures
        exposition::after_label_set(
            s,
            if escaped {
                LabelState::Escape
            } else {
                LabelState::Value
            },
        ) is None,
    decreases s.len(),
{
    if s.len() > 0 {
        let less = s.skip(1);
        assert forall|i: int| 0 <= i < less.len() implies less[i] != '"' by {
            assert(less[i] == s[i + 1]);
        }
        open_value_has_no_end(less, !escaped && s[0] == '\\');
    }
}

/// What is no sample: a line that does not start with the family's name; the name alone; the name
/// with anything but labels or white space behind it; and labels without a closing brace.
pub proof fn other_lines_are_no_samples(line: Seq<char>, family: Seq<char>)
    requires
        text_laws::tight(line),
    ensures
        line.len() == 0 ==> exposition::sample_value(line, family) is None,
        line.len() > 0 && line[0] == '#' ==> exposition::sample_value(line, family) is None,
        !family.is_prefix_of(line) ==> exposition::sample_value(line, family) is None,
        line == family ==> exposition::sample_value(line, family) is None,
        family.is_prefix_of(line) && line.len() > family.len() && line[family.len() as int] != '{'
            && !text::is_space(line[family.len() as int]) ==> exposition::sample_value(line, family)
            is None,
        family.is_prefix_of(line) && line.len() > family.len() && line[family.len() as int] == '{'
            && !line.skip(family.len() as int).contains('}') ==> exposition::sample_value(
            line,
            family,
        ) is None,
{
    let none = Seq::<char>::empty();
    text_laws::trimming_takes_off_both_ends(none, line, none);
    assert(none + line + none =~= line);
    let behind = line.skip(family.len() as int);
    if family.is_prefix_of(line) && line.len() > family.len() {
        assert(behind[0] == line[family.len() as int]);
        if behind[0] == '{' && !behind.contains('}') {
            assert forall|i: int| 0 <= i < behind.len() implies behind[i] != '}' by {
                assert(behind.contains(behind[i]));
            }
            without_a_brace_there_is_no_end(behind);
            let less = behind.skip(1);
            assert forall|i: int| 0 <= i < less.len() implies less[i] != '}' by {
                assert(less[i] == behind[i + 1]);
            }
            without_a_brace_nothing_closes(less, LabelState::Before);
        }
    }
}

proof fn without_a_brace_there_is_no_end(s: Seq<char>)
    requires
        forall|i: int| 0 <= i < s.len() ==> s[i] != '}',
    ensures
        exposition::after_first_brace(s) is None,
    decreases s.len(),
{
    if s.len() > 0 {
        without_a_brace_there_is_no_end(s.skip(1));
    }
}

proof fn without_a_brace_nothing_closes(s: Seq<char>, state: LabelState)
    requires
        forall|i: int| 0 <= i < s.len() ==> s[i] != '}',
    ensures
        exposition::after_label_set(s, state) is None,
    decreases s.len(),
{
    if s.len() > 0 {
        let less = s.skip(1);
        assert forall|i: int| 0 <= i < less.len() implies less[i] != '}' by {
            assert(less[i] == s[i + 1]);
        }
        match exposition::label_state_after(state, s[0]) {
            None => {},
            Some(next) => {
                without_a_brace_nothing_closes(less, next);
            },
        }
    }
}

/// Labels with nothing behind them are no sample.
pub proof fn labels_without_a_value_are_no_sample(family: Seq<char>, labels: Seq<Label>)
    requires
        is_family(family),
        well_named(labels),
    ensures
        exposition::sample_value(family + written_set(labels), family) is None,
{
    let none = Seq::<char>::empty();
    let line = family + written_set(labels);
    assert(line[0] == family[0]);
    assert(line[line.len() - 1] == '}');
    text_laws::trimming_takes_off_both_ends(none, line, none);
    assert(none + line + none =~= line);
    assert(family =~= line.subrange(0, family.len() as int));
    assert(line.skip(family.len() as int) =~= written_set(labels) + none);
    assert((written_set(labels) + none)[0] == '{');
    a_set_of_labels_ends_at_its_own_brace(labels, none);
}

/// What `family_samples` returns of a body: a line of its own adds its value at its place, and changes
/// nothing else. The line may have labels or not.
pub proof fn samples_are_read_in_order(
    before: &str,
    family: &str,
    labels: Seq<Label>,
    value: Seq<char>,
    after: &str,
    body: &str,
    with_labels: bool,
    rb: Vec<String>,
    ra: Vec<String>,
    r: Vec<String>,
)
    requires
        exposition::at_line_start(before@),
        is_family(family@),
        !family@.contains('\n'),
        well_named(labels),
        exposition::is_word(value),
        body@ == before@ + (if with_labels {
            family@ + written_set(labels) + seq![' '] + value
        } else {
            family@ + seq![' '] + value
        }).push('\n') + after@,
        call_ensures(exposition::family_samples, (before, family), rb),
        call_ensures(exposition::family_samples, (after, family), ra),
        call_ensures(exposition::family_samples, (body, family), r),
    ensures
        objects::texts_view(r@) == objects::texts_view(rb@) + seq![value] + objects::texts_view(
            ra@,
        ),
{
    let line = if with_labels {
        family@ + written_set(labels) + seq![' '] + value
    } else {
        family@ + seq![' '] + value
    };
    labels_make_no_difference(family@, labels, value);
    assert(!line.contains('\n')) by {
        labels_have_no_line_breaks(labels);
        assert(text::is_space('\n'));
        assert forall|i: int| 0 <= i < line.len() implies line[i] != '\n' by {
            let n = family@.len() as int;
            let m = if with_labels {
                written_set(labels).len() as int
            } else {
                0
            };
            if i < n {
                assert(line[i] == family@[i]);
                assert(family@.contains(family@[i]));
            } else if i < n + m {
                assert(line[i] == written_set(labels)[i - n]);
            } else if i > n + m {
                assert(line[i] == value[i - n - m - 1]);
                assert(!text::is_space(value[i - n - m - 1]));
            }
        }
    }
    exposition::a_line_adds_its_value(before@, line, after@, family@);
}

proof fn labels_have_no_line_breaks(labels: Seq<Label>)
    requires
        well_named(labels),
    ensures
        forall|i: int|
            0 <= i < written_set(labels).len() ==> #[trigger] written_set(labels)[i] != '\n',
{
    list_has_no_line_breaks(labels);
    let inner = written_labels(labels);
    assert forall|i: int| 0 <= i < written_set(labels).len() implies #[trigger] written_set(
        labels,
    )[i] != '\n' by {
        if 0 < i <= inner.len() {
            assert(written_set(labels)[i] == inner[i - 1]);
        }
    }
}

proof fn list_has_no_line_breaks(labels: Seq<Label>)
    requires
        well_named(labels),
    ensures
        forall|i: int|
            0 <= i < written_labels(labels).len() ==> #[trigger] written_labels(labels)[i] != '\n',
    decreases labels.len(),
{
    if labels.len() > 0 {
        let l = labels[0];
        assert(is_label_name(l.0));
        quoted_has_no_line_breaks(l.1);
        let one = written_label(l);
        assert forall|i: int| 0 <= i < one.len() implies #[trigger] one[i] != '\n' by {
            let n = l.0.len() as int;
            let m = quoted(l.1).len() as int;
            if i < n {
                assert(one[i] == l.0[i]);
            } else if n + 2 <= i < n + 2 + m {
                assert(one[i] == quoted(l.1)[i - n - 2]);
            }
        }
        if labels.len() > 1 {
            let more = labels.skip(1);
            assert forall|i: int| 0 <= i < more.len() implies is_label_name(
                (#[trigger] more[i]).0,
            ) by {
                assert(more[i] == labels[i + 1]);
            }
            list_has_no_line_breaks(more);
            let all = written_labels(labels);
            assert forall|i: int| 0 <= i < all.len() implies #[trigger] all[i] != '\n' by {
                if i < one.len() {
                    assert(all[i] == one[i]);
                } else if i > one.len() {
                    assert(all[i] == written_labels(more)[i - one.len() - 1]);
                }
            }
        }
    }
}

proof fn quoted_has_no_line_breaks(s: Seq<char>)
    ensures
        forall|i: int| 0 <= i < quoted(s).len() ==> #[trigger] quoted(s)[i] != '\n',
    decreases s.len(),
{
    if s.len() > 0 {
        quoted_has_no_line_breaks(s.skip(1));
        let less = quoted(s.skip(1));
        let all = quoted(s);
        let n = all.len() - less.len();
        assert forall|i: int| 0 <= i < all.len() implies #[trigger] all[i] != '\n' by {
            if i >= n {
                assert(all[i] == less[i - n]);
            }
        }
    }
}

/// The suffixed name of a counter is its bare name with the suffix behind it.
pub proof fn counters_have_a_suffix(family: &str, r: String)
    requires
        call_ensures(exposition::total_name, (family,), r),
    ensures
        r@.len() == family@.len() + 6,
        family@.is_prefix_of(r@),
        r@.skip(family@.len() as int) == "_total"@,
{
    reveal_strlit("_total");
    assert("_total"@.len() == 6);
    assert(family@ =~= r@.subrange(0, family@.len() as int));
    assert(r@.skip(family@.len() as int) =~= "_total"@);
}

/// A line that is no sample of the family adds nothing to what `family_samples` returns, wherever it
/// stands.
pub proof fn other_lines_add_nothing(
    before: &str,
    line: Seq<char>,
    after: &str,
    family: &str,
    body: &str,
    rb: Vec<String>,
    ra: Vec<String>,
    r: Vec<String>,
)
    requires
        exposition::at_line_start(before@),
        text_laws::tight(line),
        !line.contains('\n'),
        line.len() == 0 || line[0] == '#' || !family@.is_prefix_of(line) || line == family@ || (
        line.len() > family@.len() && line[family@.len() as int] != '{' && !text::is_space(
            line[family@.len() as int],
        )) || (line.len() > family@.len() && line[family@.len() as int] == '{' && !line.skip(
            family@.len() as int,
        ).contains('}')),
        body@ == before@ + line.push('\n') + after@,
        call_ensures(exposition::family_samples, (before, family), rb),
        call_ensures(exposition::family_samples, (after, family), ra),
        call_ensures(exposition::family_samples, (body, family), r),
    ensures
        objects::texts_view(r@) == objects::texts_view(rb@) + objects::texts_view(ra@),
{
    other_lines_are_no_samples(line, family@);
    exposition::a_line_adds_its_value(before@, line, after@, family@);
    assert(objects::texts_view(rb@) + Seq::<Seq<char>>::empty() =~= objects::texts_view(rb@));
}

/// Nothing is read from nothing.
pub proof fn an_empty_body_has_no_samples(body: &str, family: &str, r: Vec<String>)
    requires
        body@.len() == 0,
        call_ensures(exposition::family_samples, (body, family), r),
    ensures
        r@.len() == 0,
{
    let none = Seq::<char>::empty();
    assert(body@ =~= none);
    text::unseparated_text_is_one_piece(none, '\n');
    assert(seq![none].drop_last() =~= Seq::<Seq<char>>::empty());
    assert(seq![none].last() == none);
    assert(exposition::sample_value(none, family@) is None);
    assert(exposition::values_on(seq![none].drop_last(), family@).len() == 0);
    assert(objects::texts_view(r@).len() == r@.len());
}

/// Whatever stands between the braces, as long as no brace does, and as long as no quote follows: the
/// value is the first word behind the closing brace, blanks, commas, quotes and escapes
/// notwithstanding.
pub proof fn a_set_without_inner_braces_ends_at_its_brace(
    lead: Seq<char>,
    family: Seq<char>,
    inner: Seq<char>,
    gap: Seq<char>,
    value: Seq<char>,
    rest: Seq<char>,
    trail: Seq<char>,
)
    requires
        text_laws::all_space(lead),
        is_family(family),
        !inner.contains('}'),
        text_laws::all_space(gap),
        is_value_and_rest(value, rest),
        !(gap + value + rest).contains('"'),
        text_laws::all_space(trail),
    ensures
        exposition::sample_value(
            lead + (family + seq!['{'] + inner + seq!['}'] + gap + value + rest) + trail,
            family,
        ) == Some(value),
{
    let tail = gap + value + rest;
    let line = family + seq!['{'] + inner + seq!['}'] + gap + value + rest;
    let behind = seq!['{'] + inner + seq!['}'] + tail;
    assert(line =~= family + behind);
    assert(line[0] == family[0]);
    assert(!text::is_space(value[value.len() - 1]));
    if rest.len() > 0 {
        assert(line[line.len() - 1] == rest[rest.len() - 1]);
    } else {
        assert(line[line.len() - 1] == value[value.len() - 1]);
    }
    text_laws::trimming_takes_off_both_ends(lead, line, trail);
    assert(family =~= line.subrange(0, family.len() as int));
    assert(line.skip(family.len() as int) =~= behind);
    assert(behind[0] == '{');
    assert(behind.skip(1) =~= inner + seq!['}'] + tail);
    reading_stops_at_the_brace(inner, tail, LabelState::Before);
    assert forall|i: int| 0 <= i < (seq!['{'] + inner).len() implies (seq!['{'] + inner)[i]
        != '}' by {
        if i > 0 {
            assert((seq!['{'] + inner)[i] == inner[i - 1]);
            assert(inner.contains(inner[i - 1]));
        }
    }
    brace_is_found(seq!['{'] + inner, tail);
    first_word_behind_space(gap, value, rest);
}

proof fn reading_stops_at_the_brace(inner: Seq<char>, rest: Seq<char>, state: LabelState)
    requires
        !inner.contains('}'),
        !rest.contains('"'),
    ensures
        ({
            let r = exposition::after_label_set(inner + seq!['}'] + rest, state);
            r is None || r == Some(rest)
        }),
    decreases inner.len(),
{
    let s = inner + seq!['}'] + rest;
    if inner.len() == 0 {
        assert(s[0] == '}');
        assert(s.skip(1) =~= rest);
        assert forall|i: int| 0 <= i < rest.len() implies rest[i] != '"' by {
            assert(rest.contains(rest[i]));
        }
        open_value_has_no_end(rest, false);
    } else {
        let less = inner.skip(1);
        assert(inner[0] != '}') by {
            assert(inner.contains(inner[0]));
        }
        assert forall|c: char| less.contains(c) implies inner.contains(c) by {
            let i = choose|i: int| 0 <= i < less.len() && less[i] == c;
            assert(inner[i + 1] == c);
        }
        assert(s.skip(1) =~= less + seq!['}'] + rest);
        assert(s[0] == inner[0]);
        match exposition::label_state_after(state, s[0]) {
            None => {},
            Some(next) => {
                reading_stops_at_the_brace(less, rest, next);
            },
        }
    }
}

/// A label with the blanks before its name, behind its name, before its value and behind its value.
pub ghost struct SpreadLabel {
    pub label: Label,
    pub before_name: Seq<char>,
    pub behind_name: Seq<char>,
    pub before_value: Seq<char>,
    pub behind_value: Seq<char>,
}

/// Whether a text is blanks and tabs throughout.
pub open spec fn all_blank(s: Seq<char>) -> bool {
    forall|i: int| 0 <= i < s.len() ==> #[trigger] s[i] == ' ' || s[i] == '\t'
}

/// Whether the labels have names that labels can have, and only blanks between their parts.
pub open spec fn well_spread(labels: Seq<SpreadLabel>) -> bool {
    forall|i: int|
        0 <= i < labels.len() ==> {
            let l = #[trigger] labels[i];
            &&& is_label_name(l.label.0)
            &&& all_blank(l.before_name)
            &&& all_blank(l.behind_name)
            &&& all_blank(l.before_value)
            &&& all_blank(l.behind_value)
        }
}

/// A label as it is written with its blanks.
pub open spec fn spread_label(l: SpreadLabel) -> Seq<char> {
    l.before_name + l.label.0 + l.behind_name + seq!['='] + l.before_value + seq!['"'] + quoted(
        l.label.1,
    ) + seq!['"'] + l.behind_value
}

/// Labels as they are written with their blanks, and with a comma behind the last one or without.
pub open spec fn spread_labels(labels: Seq<SpreadLabel>, comma: bool) -> Seq<char>
    decreases labels.len(),
{
    if labels.len() == 0 {
        Seq::empty()
    } else {
        spread_label(labels[0]) + (if labels.len() > 1 || comma {
            seq![',']
        } else {
            Seq::empty()
        }) + spread_labels(labels.skip(1), comma)
    }
}

/// Blanks between the parts of a label are read over.
proof fn blanks_are_read(blanks: Seq<char>, rest: Seq<char>, state: LabelState)
    requires
        all_blank(blanks),
        state is Before || state is Named || state is Equals || state is After,
    ensures
        exposition::after_label_set(blanks + rest, state) == exposition::after_label_set(
            rest,
            state,
        ),
    decreases blanks.len(),
{
    let s = blanks + rest;
    if blanks.len() > 0 {
        let less = blanks.skip(1);
        assert forall|i: int| 0 <= i < less.len() implies #[trigger] less[i] == ' ' || less[i]
            == '\t' by {
            assert(less[i] == blanks[i + 1]);
        }
        blanks_are_read(less, rest, state);
        assert(s[0] == blanks[0]);
        assert(s.skip(1) =~= less + rest);
        assert(exposition::label_state_after(state, s[0]) == Some(state));
    } else {
        assert(s =~= rest);
    }
}

/// A label with blanks between its parts is read to its end.
proof fn spread_label_is_read(l: SpreadLabel, rest: Seq<char>)
    requires
        is_label_name(l.label.0),
        all_blank(l.before_name),
        all_blank(l.behind_name),
        all_blank(l.before_value),
        all_blank(l.behind_value),
    ensures
        exposition::after_label_set(spread_label(l) + rest, LabelState::Before)
            == exposition::after_label_set(rest, LabelState::After),
{
    let name = l.label.0;
    let behind_value = l.behind_value + rest;
    let value = quoted(l.label.1) + seq!['"'] + behind_value;
    let opened = seq!['"'] + value;
    let equals = l.before_value + opened;
    let sign = seq!['='] + equals;
    let named = l.behind_name + sign;
    let whole = name + named;
    assert(spread_label(l) + rest =~= l.before_name + whole);
    blanks_are_read(l.before_name, whole, LabelState::Before);
    let less = name.skip(1);
    assert forall|i: int| 0 <= i < less.len() implies 'a' <= #[trigger] less[i] <= 'z' || 'A'
        <= less[i] <= 'Z' || less[i] == '_' || '0' <= less[i] <= '9' by {
        assert(less[i] == name[i + 1]);
    }
    assert(whole[0] == name[0]);
    assert(whole.skip(1) =~= less + named);
    assert(exposition::label_state_after(LabelState::Before, whole[0]) == Some(LabelState::Name));
    name_is_read(less, named);
    assert(sign[0] == '=' && sign.skip(1) =~= equals);
    if l.behind_name.len() > 0 {
        let more = l.behind_name.skip(1);
        assert forall|i: int| 0 <= i < more.len() implies #[trigger] more[i] == ' ' || more[i]
            == '\t' by {
            assert(more[i] == l.behind_name[i + 1]);
        }
        assert(named[0] == l.behind_name[0]);
        assert(named.skip(1) =~= more + sign);
        assert(exposition::label_state_after(LabelState::Name, named[0]) == Some(
            LabelState::Named,
        ));
        blanks_are_read(more, sign, LabelState::Named);
    } else {
        assert(named =~= sign);
    }
    assert(exposition::after_label_set(named, LabelState::Name) == exposition::after_label_set(
        equals,
        LabelState::Equals,
    ));
    blanks_are_read(l.before_value, opened, LabelState::Equals);
    assert(opened[0] == '"' && opened.skip(1) =~= value);
    value_is_read(l.label.1, behind_value);
    blanks_are_read(l.behind_value, rest, LabelState::After);
}

/// Labels with blanks between their parts are read to the closing brace.
proof fn spread_labels_are_read(
    labels: Seq<SpreadLabel>,
    comma: bool,
    blanks: Seq<char>,
    rest: Seq<char>,
)
    requires
        well_spread(labels),
        all_blank(blanks),
    ensures
        exposition::after_label_set(
            spread_labels(labels, comma) + blanks + seq!['}'] + rest,
            LabelState::Before,
        ) == Some(rest),
    decreases labels.len(),
{
    let end = seq!['}'] + rest;
    assert(end[0] == '}' && end.skip(1) =~= rest);
    let closing = blanks + end;
    let s = spread_labels(labels, comma) + blanks + seq!['}'] + rest;
    if labels.len() == 0 {
        blanks_are_read(blanks, end, LabelState::Before);
        assert(s =~= closing);
    } else {
        let first = labels[0];
        let more = labels.skip(1);
        assert forall|i: int| 0 <= i < more.len() implies ({
            let l = #[trigger] more[i];
            &&& is_label_name(l.label.0)
            &&& all_blank(l.before_name)
            &&& all_blank(l.behind_name)
            &&& all_blank(l.before_value)
            &&& all_blank(l.behind_value)
        }) by {
            assert(more[i] == labels[i + 1]);
        }
        spread_labels_are_read(more, comma, blanks, rest);
        if labels.len() > 1 || comma {
            let behind = spread_labels(more, comma) + blanks + seq!['}'] + rest;
            let with_comma = seq![','] + behind;
            assert(with_comma[0] == ',' && with_comma.skip(1) =~= behind);
            spread_label_is_read(first, with_comma);
            assert(s =~= spread_label(first) + with_comma);
        } else {
            spread_label_is_read(first, closing);
            blanks_are_read(blanks, end, LabelState::After);
            assert(spread_labels(more, comma) =~= Seq::<char>::empty());
            assert(s =~= spread_label(first) + closing);
        }
    }
}

/// Blanks between the parts of labels, and a comma behind the last label, make no difference to what
/// the line says, whatever stands in the values.
pub proof fn blanks_between_labels_make_no_difference(
    lead: Seq<char>,
    family: Seq<char>,
    labels: Seq<SpreadLabel>,
    comma: bool,
    blanks: Seq<char>,
    gap: Seq<char>,
    value: Seq<char>,
    rest: Seq<char>,
    trail: Seq<char>,
)
    requires
        text_laws::all_space(lead),
        is_family(family),
        well_spread(labels),
        all_blank(blanks),
        text_laws::all_space(gap),
        is_value_and_rest(value, rest),
        text_laws::all_space(trail),
    ensures
        exposition::sample_value(
            lead + (family + seq!['{'] + spread_labels(labels, comma) + blanks + seq!['}'] + gap
                + value + rest) + trail,
            family,
        ) == Some(value),
{
    let tail = gap + value + rest;
    let set = spread_labels(labels, comma) + blanks + seq!['}'] + tail;
    let behind = seq!['{'] + set;
    let line = family + seq!['{'] + spread_labels(labels, comma) + blanks + seq!['}'] + gap + value
        + rest;
    assert(line =~= family + behind);
    assert(line[0] == family[0]);
    assert(!text::is_space(value[value.len() - 1]));
    if rest.len() > 0 {
        assert(line[line.len() - 1] == rest[rest.len() - 1]);
    } else {
        assert(line[line.len() - 1] == value[value.len() - 1]);
    }
    text_laws::trimming_takes_off_both_ends(lead, line, trail);
    assert(family =~= line.subrange(0, family.len() as int));
    assert(line.skip(family.len() as int) =~= behind);
    assert(behind[0] == '{');
    assert(behind.skip(1) =~= set);
    spread_labels_are_read(labels, comma, blanks, tail);
    first_word_behind_space(gap, value, rest);
}

} // verus!
