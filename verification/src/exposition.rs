//! The text format in which a server exposes its metrics: one sample per line, a family name,
//! labels in braces, and a value.
use crate::text;
use crate::text::{chars_of, is_white_space, skip_space, split_parts, text_of, trim_part};
use vstd::prelude::*;

verus! {

/// How far a set of labels has been read: name, equals sign and quoted value for each label, commas
/// between them, and blanks anywhere but within a name.
#[derive(Clone, Copy, Debug, PartialEq, Eq, Structural)]
pub enum LabelState {
    /// Before a label, or the closing brace.
    Before,
    /// In a name.
    Name,
    /// Between a name and its equals sign.
    Named,
    /// Between an equals sign and its value.
    Equals,
    /// In a quoted value.
    Value,
    /// Behind a backslash in a value.
    Escape,
    /// Behind a value.
    After,
    /// Behind the closing brace.
    Closed,
}

/// Whether a character can start the name of a label.
pub open spec fn starts_name(c: char) -> bool {
    'a' <= c <= 'z' || 'A' <= c <= 'Z' || c == '_'
}

/// Whether a character can stand in the name of a label.
pub open spec fn continues_name(c: char) -> bool {
    starts_name(c) || '0' <= c <= '9'
}

/// Whether a character is a blank between the parts of a label.
pub open spec fn is_blank(c: char) -> bool {
    c == ' ' || c == '\t'
}

/// How far a set of labels has been read once one more character is; none where a well-formed set
/// does not have that character.
pub open spec fn label_state_after(state: LabelState, c: char) -> Option<LabelState> {
    match state {
        LabelState::Before => if is_blank(c) {
            Some(LabelState::Before)
        } else if c == '}' {
            Some(LabelState::Closed)
        } else if starts_name(c) {
            Some(LabelState::Name)
        } else {
            None
        },
        LabelState::Name => if continues_name(c) {
            Some(LabelState::Name)
        } else if is_blank(c) {
            Some(LabelState::Named)
        } else if c == '=' {
            Some(LabelState::Equals)
        } else {
            None
        },
        LabelState::Named => if is_blank(c) {
            Some(LabelState::Named)
        } else if c == '=' {
            Some(LabelState::Equals)
        } else {
            None
        },
        LabelState::Equals => if is_blank(c) {
            Some(LabelState::Equals)
        } else if c == '"' {
            Some(LabelState::Value)
        } else {
            None
        },
        LabelState::Value => if c == '"' {
            Some(LabelState::After)
        } else if c == '\\' {
            Some(LabelState::Escape)
        } else {
            Some(LabelState::Value)
        },
        LabelState::Escape => Some(LabelState::Value),
        LabelState::After => if is_blank(c) {
            Some(LabelState::After)
        } else if c == ',' {
            Some(LabelState::Before)
        } else if c == '}' {
            Some(LabelState::Closed)
        } else {
            None
        },
        LabelState::Closed => None,
    }
}

/// What follows a well-formed set of labels, from within it. A brace in a quoted value does not end
/// the set.
pub open spec fn after_label_set(s: Seq<char>, state: LabelState) -> Option<Seq<char>>
    decreases s.len(),
{
    if s.len() == 0 {
        None
    } else {
        match label_state_after(state, s[0]) {
            None => None,
            Some(LabelState::Closed) => Some(s.skip(1)),
            Some(next) => after_label_set(s.skip(1), next),
        }
    }
}

/// What follows the first closing brace.
pub open spec fn after_first_brace(s: Seq<char>) -> Option<Seq<char>>
    decreases s.len(),
{
    if s.len() == 0 {
        None
    } else if s[0] == '}' {
        Some(s.skip(1))
    } else {
        after_first_brace(s.skip(1))
    }
}

/// What follows the labels that a text with an opening brace at its start begins with: what follows
/// the set, if it is well formed, and else what follows the first closing brace.
pub open spec fn after_labels(s: Seq<char>) -> Option<Seq<char>> {
    match after_label_set(s.skip(1), LabelState::Before) {
        Some(tail) => Some(tail),
        None => after_first_brace(s),
    }
}

/// The characters up to the first white space.
pub open spec fn word(s: Seq<char>) -> Seq<char>
    decreases s.len(),
{
    if s.len() == 0 || text::is_space(s[0]) {
        Seq::empty()
    } else {
        seq![s[0]] + word(s.skip(1))
    }
}

/// The first word of a text.
pub open spec fn first_word(s: Seq<char>) -> Option<Seq<char>> {
    let t = text::trim_start(s);
    if t.len() == 0 {
        None
    } else {
        Some(word(t))
    }
}

/// The value of a sample, given what follows its family name: labels in braces and then the value,
/// or white space and then the value. Anything else is a longer name.
pub open spec fn value_after_name(rest: Seq<char>) -> Option<Seq<char>> {
    if rest.len() == 0 {
        None
    } else if rest[0] == '{' {
        match after_labels(rest) {
            Some(tail) => first_word(tail),
            None => None,
        }
    } else if text::is_space(rest[0]) {
        first_word(rest)
    } else {
        None
    }
}

/// The value on a line, if the line is a sample of the family. Empty lines and lines that start
/// with a hash are no samples.
pub open spec fn sample_value(line: Seq<char>, family: Seq<char>) -> Option<Seq<char>> {
    let l = text::trimmed(line);
    if l.len() == 0 || l[0] == '#' || !family.is_prefix_of(l) {
        None
    } else {
        value_after_name(l.skip(family.len() as int))
    }
}

/// The values of a family on the given lines, in order.
pub open spec fn values_on(lines: Seq<Seq<char>>, family: Seq<char>) -> Seq<Seq<char>>
    decreases lines.len(),
{
    if lines.len() == 0 {
        Seq::empty()
    } else {
        match sample_value(lines.last(), family) {
            Some(v) => values_on(lines.drop_last(), family).push(v),
            None => values_on(lines.drop_last(), family),
        }
    }
}

/// The values of a family in a body, in order.
pub open spec fn family_values(body: Seq<char>, family: Seq<char>) -> Seq<Seq<char>> {
    values_on(text::pieces(body, '\n'), family)
}

/// The end of the word that starts at `from`.
fn word_end(chars: &[char], from: usize, to: usize) -> (r: usize)
    requires
        from <= to <= chars@.len(),
    ensures
        from <= r <= to,
        chars@.subrange(from as int, r as int) == word(chars@.subrange(from as int, to as int)),
{
    let mut i: usize = from;
    let ghost whole = word(chars@.subrange(from as int, to as int));
    while i < to && !is_white_space(chars[i])
        invariant
            from <= i <= to <= chars@.len(),
            whole == chars@.subrange(from as int, i as int) + word(
                chars@.subrange(i as int, to as int),
            ),
        decreases to - i,
    {
        proof {
            let tail = chars@.subrange(i as int, to as int);
            assert(tail.skip(1) == chars@.subrange(i + 1, to as int));
            assert(chars@.subrange(from as int, i + 1) == chars@.subrange(from as int, i as int)
                + seq![chars@[i as int]]);
            assert(chars@.subrange(from as int, i as int) + (seq![tail[0]] + word(tail.skip(1)))
                =~= chars@.subrange(from as int, i as int) + seq![tail[0]] + word(tail.skip(1)));
        }
        i = i + 1;
    }
    i
}

/// The first word of `from..to`.
fn first_word_of(chars: &[char], from: usize, to: usize) -> (r: Option<String>)
    requires
        from <= to <= chars@.len(),
    ensures
        crate::objects::text_view(r) == first_word(chars@.subrange(from as int, to as int)),
{
    let start = skip_space(chars, from, to);
    if start == to {
        return None;
    }
    let end = word_end(chars, start, to);
    Some(text_of(chars, start, end))
}

/// How far a set of labels has been read once one more character is.
fn label_state_of(state: LabelState, c: char) -> (r: Option<LabelState>)
    ensures
        r == label_state_after(state, c),
{
    let blank = c == ' ' || c == '\t';
    let letter = ('a' <= c && c <= 'z') || ('A' <= c && c <= 'Z') || c == '_';
    let digit = '0' <= c && c <= '9';
    match state {
        LabelState::Before if blank => Some(LabelState::Before),
        LabelState::Before if c == '}' => Some(LabelState::Closed),
        LabelState::Before if letter => Some(LabelState::Name),
        LabelState::Name if letter || digit => Some(LabelState::Name),
        LabelState::Name if blank => Some(LabelState::Named),
        LabelState::Name if c == '=' => Some(LabelState::Equals),
        LabelState::Named if blank => Some(LabelState::Named),
        LabelState::Named if c == '=' => Some(LabelState::Equals),
        LabelState::Equals if blank => Some(LabelState::Equals),
        LabelState::Equals if c == '"' => Some(LabelState::Value),
        LabelState::Value if c == '"' => Some(LabelState::After),
        LabelState::Value if c == '\\' => Some(LabelState::Escape),
        LabelState::Value => Some(LabelState::Value),
        LabelState::Escape => Some(LabelState::Value),
        LabelState::After if blank => Some(LabelState::After),
        LabelState::After if c == ',' => Some(LabelState::Before),
        LabelState::After if c == '}' => Some(LabelState::Closed),
        _ => None,
    }
}

/// The position behind the well-formed set of labels that ends in `from..to`.
fn label_set_end(chars: &[char], from: usize, to: usize) -> (r: Option<usize>)
    requires
        from <= to <= chars@.len(),
    ensures
        match r {
            Some(k) => from <= k <= to && after_label_set(
                chars@.subrange(from as int, to as int),
                LabelState::Before,
            ) == Some(chars@.subrange(k as int, to as int)),
            None => after_label_set(
                chars@.subrange(from as int, to as int),
                LabelState::Before,
            ) is None,
        },
{
    let mut i: usize = from;
    let mut state = LabelState::Before;
    while i < to
        invariant
            from <= i <= to <= chars@.len(),
            state != LabelState::Closed,
            after_label_set(chars@.subrange(from as int, to as int), LabelState::Before)
                == after_label_set(chars@.subrange(i as int, to as int), state),
        decreases to - i,
    {
        proof {
            let rest = chars@.subrange(i as int, to as int);
            assert(rest.skip(1) == chars@.subrange(i + 1, to as int));
        }
        match label_state_of(state, chars[i]) {
            None => {
                return None;
            },
            Some(LabelState::Closed) => {
                return Some(i + 1);
            },
            Some(next) => {
                state = next;
            },
        }
        i = i + 1;
    }
    None
}

/// The position behind the first closing brace in `from..to`.
fn first_brace_end(chars: &[char], from: usize, to: usize) -> (r: Option<usize>)
    requires
        from <= to <= chars@.len(),
    ensures
        match r {
            Some(k) => from <= k <= to && after_first_brace(
                chars@.subrange(from as int, to as int),
            ) == Some(chars@.subrange(k as int, to as int)),
            None => after_first_brace(chars@.subrange(from as int, to as int)) is None,
        },
{
    let mut i: usize = from;
    while i < to
        invariant
            from <= i <= to <= chars@.len(),
            after_first_brace(chars@.subrange(from as int, to as int)) == after_first_brace(
                chars@.subrange(i as int, to as int),
            ),
        decreases to - i,
    {
        proof {
            let rest = chars@.subrange(i as int, to as int);
            assert(rest.skip(1) == chars@.subrange(i + 1, to as int));
        }
        if chars[i] == '}' {
            return Some(i + 1);
        }
        i = i + 1;
    }
    None
}

/// The position behind the labels that `from..to` starts with.
fn labels_end(chars: &[char], from: usize, to: usize) -> (r: Option<usize>)
    requires
        from < to <= chars@.len(),
    ensures
        match r {
            Some(k) => from <= k <= to && after_labels(chars@.subrange(from as int, to as int))
                == Some(chars@.subrange(k as int, to as int)),
            None => after_labels(chars@.subrange(from as int, to as int)) is None,
        },
{
    proof {
        assert(chars@.subrange(from as int, to as int).skip(1) == chars@.subrange(
            from + 1,
            to as int,
        ));
    }
    match label_set_end(chars, from + 1, to) {
        Some(k) => Some(k),
        None => first_brace_end(chars, from, to),
    }
}

/// Whether `from..to` starts with the given characters.
fn starts_with(chars: &[char], from: usize, to: usize, prefix: &[char]) -> (r: bool)
    requires
        from <= to <= chars@.len(),
    ensures
        r == prefix@.is_prefix_of(chars@.subrange(from as int, to as int)),
{
    let ghost part = chars@.subrange(from as int, to as int);
    if prefix.len() > to - from {
        return false;
    }
    let mut i: usize = 0;
    while i < prefix.len()
        invariant
            i <= prefix@.len() <= to - from,
            from <= to <= chars@.len(),
            part == chars@.subrange(from as int, to as int),
            forall|j: int| 0 <= j < i ==> #[trigger] prefix@[j] == part[j],
        decreases prefix@.len() - i,
    {
        if prefix[i] != chars[from + i] {
            proof {
                assert(part[i as int] != prefix@[i as int]);
                assert(part.subrange(0, prefix@.len() as int)[i as int] == part[i as int]);
            }
            return false;
        }
        i = i + 1;
    }
    proof {
        assert(prefix@ =~= part.subrange(0, prefix@.len() as int));
    }
    true
}

/// The value on the line `from..to`, if the line is a sample of the family.
fn line_value(chars: &[char], from: usize, to: usize, family: &[char]) -> (r: Option<String>)
    requires
        from <= to <= chars@.len(),
    ensures
        crate::objects::text_view(r) == sample_value(
            chars@.subrange(from as int, to as int),
            family@,
        ),
{
    let (start, end) = trim_part(chars, from, to);
    let ghost l = chars@.subrange(start as int, end as int);
    if start == end || chars[start] == '#' || !starts_with(chars, start, end, family) {
        return None;
    }
    let rest: usize = start + family.len();
    proof {
        assert(l.skip(family@.len() as int) == chars@.subrange(rest as int, end as int));
    }
    if rest == end {
        return None;
    }
    let c = chars[rest];
    if c == '{' {
        match labels_end(chars, rest, end) {
            Some(k) => first_word_of(chars, k, end),
            None => None,
        }
    } else if is_white_space(c) {
        first_word_of(chars, rest, end)
    } else {
        None
    }
}

/// The values of one metric family in a body, across label sets, in order. A family that is not in
/// the body has none.
pub fn family_samples(body: &str, family: &str) -> (r: Vec<String>)
    ensures
        crate::objects::texts_view(r@) == family_values(body@, family@),
{
    let chars = chars_of(body);
    let name = chars_of(family);
    let lines = split_parts(&chars, '\n');
    let ghost all = text::pieces(body@, '\n');
    let mut out: Vec<String> = Vec::new();
    let mut i: usize = 0;
    proof {
        assert(crate::objects::texts_view(out@) =~= values_on(all.take(0), family@));
    }
    while i < lines.len()
        invariant
            i <= lines@.len(),
            chars@ == body@,
            name@ == family@,
            all == text::pieces(body@, '\n'),
            lines@.len() == all.len(),
            forall|j: int|
                0 <= j < lines@.len() ==> (#[trigger] lines@[j]).0 <= lines@[j].1 <= chars@.len()
                    && chars@.subrange(lines@[j].0 as int, lines@[j].1 as int) == all[j],
            crate::objects::texts_view(out@) == values_on(all.take(i as int), family@),
        decreases lines@.len() - i,
    {
        let (from, to) = lines[i];
        let ghost before = out@;
        proof {
            assert(all.take(i + 1).drop_last() == all.take(i as int));
            assert(all.take(i + 1).last() == all[i as int]);
        }
        if let Some(v) = line_value(&chars, from, to, &name) {
            out.push(v);
            proof {
                assert(crate::objects::texts_view(out@) =~= crate::objects::texts_view(
                    before,
                ).push(v@));
            }
        }
        i = i + 1;
    }
    proof {
        assert(all.take(all.len() as int) == all);
    }
    out
}

/// The name under which newer servers expose a counter family: its bare name with a suffix.
pub fn total_name(family: &str) -> (r: String)
    ensures
        r@ == family@ + "_total"@,
{
    let mut name = family.to_owned();
    name.append("_total");
    name
}

/// The values on two lists of lines are those on the one and then those on the other.
proof fn values_on_joined_lines(a: Seq<Seq<char>>, b: Seq<Seq<char>>, family: Seq<char>)
    ensures
        values_on(a + b, family) == values_on(a, family) + values_on(b, family),
    decreases b.len(),
{
    if b.len() == 0 {
        assert(a + b =~= a);
        assert(values_on(a, family) + values_on(b, family) =~= values_on(a, family));
    } else {
        assert((a + b).drop_last() =~= a + b.drop_last());
        assert((a + b).last() == b.last());
        values_on_joined_lines(a, b.drop_last(), family);
        assert(values_on(a + b, family) =~= values_on(a, family) + values_on(b, family));
    }
}

/// Whether a text ends where a line starts: it is empty, or ends with a line break.
pub open spec fn at_line_start(s: Seq<char>) -> bool {
    s.len() == 0 || s.last() == '\n'
}

/// The value on a line, if there is one, as a list.
pub open spec fn line_values(line: Seq<char>, family: Seq<char>) -> Seq<Seq<char>> {
    match sample_value(line, family) {
        Some(v) => seq![v],
        None => Seq::empty(),
    }
}

/// A line break at the end of a body adds nothing.
pub proof fn last_line_break_adds_nothing(body: Seq<char>, family: Seq<char>)
    ensures
        family_values(body.push('\n'), family) == family_values(body, family),
{
    let none = Seq::<char>::empty();
    text::pieces_of_joined_texts(body, none, '\n');
    assert(body.push('\n') + none =~= body.push('\n'));
    let lines = text::pieces(body, '\n');
    assert((lines + seq![none]).drop_last() =~= lines);
    assert(sample_value(none, family) is None);
    assert((lines + seq![none]).last() == none);
}

/// A body can be cut at the start of any line: the values of the whole are those of the one part
/// and then those of the other.
pub proof fn values_split_at_lines(before: Seq<char>, after: Seq<char>, family: Seq<char>)
    requires
        at_line_start(before),
    ensures
        family_values(before + after, family) == family_values(before, family) + family_values(
            after,
            family,
        ),
{
    if before.len() == 0 {
        let none = Seq::<char>::empty();
        assert(before =~= none);
        assert(before + after =~= after);
        text::unseparated_text_is_one_piece(none, '\n');
        assert(seq![none].drop_last() =~= Seq::<Seq<char>>::empty());
        assert(sample_value(none, family) is None);
        assert(values_on(seq![none].drop_last(), family) =~= Seq::<Seq<char>>::empty());
        assert(family_values(before, family) =~= Seq::<Seq<char>>::empty());
        assert(family_values(before, family) + family_values(after, family) =~= family_values(
            after,
            family,
        ));
    } else {
        let front = before.drop_last();
        assert(front.push('\n') =~= before);
        text::pieces_of_joined_texts(front, after, '\n');
        values_on_joined_lines(text::pieces(front, '\n'), text::pieces(after, '\n'), family);
        last_line_break_adds_nothing(front, family);
    }
}

/// A line of its own adds its value, if it has one, at its place among the others, and changes
/// nothing else; so does a last line that no line break follows.
pub proof fn a_line_adds_its_value(
    before: Seq<char>,
    line: Seq<char>,
    after: Seq<char>,
    family: Seq<char>,
)
    requires
        at_line_start(before),
        !line.contains('\n'),
    ensures
        family_values(before + line.push('\n') + after, family) == family_values(before, family)
            + line_values(line, family) + family_values(after, family),
        family_values(before + line, family) == family_values(before, family) + line_values(
            line,
            family,
        ),
{
    text::unseparated_text_is_one_piece(line, '\n');
    assert(seq![line].drop_last() =~= Seq::<Seq<char>>::empty());
    assert(seq![line].last() == line);
    assert(values_on(seq![line].drop_last(), family) =~= Seq::<Seq<char>>::empty());
    assert(family_values(line, family) =~= line_values(line, family));
    last_line_break_adds_nothing(line, family);
    values_split_at_lines(before, line, family);
    values_split_at_lines(before, line.push('\n'), family);
    values_split_at_lines(before + line.push('\n'), after, family);
}

/// Whether a line names something longer that starts with the family's name.
pub open spec fn is_longer_name(line: Seq<char>, family: Seq<char>) -> bool {
    let l = text::trimmed(line);
    &&& family.is_prefix_of(l)
    &&& l.len() > family.len()
    &&& l[family.len() as int] != '{'
    &&& !text::is_space(l[family.len() as int])
}

/// Whether a line does not count for a family, where only values that `readable` accepts count: it
/// is blank, or starts with a hash, or names something longer, or its value cannot be read.
pub open spec fn does_not_count(
    line: Seq<char>,
    family: Seq<char>,
    readable: spec_fn(Seq<char>) -> bool,
) -> bool {
    let l = text::trimmed(line);
    ||| l.len() == 0
    ||| l[0] == '#'
    ||| is_longer_name(line, family)
    ||| (sample_value(line, family) is Some && !readable(sample_value(line, family)->0))
}

/// The values of a family that count: those that can be read.
pub open spec fn counted(
    body: Seq<char>,
    family: Seq<char>,
    readable: spec_fn(Seq<char>) -> bool,
) -> Seq<Seq<char>> {
    family_values(body, family).filter(readable)
}

proof fn uncounted_line(line: Seq<char>, family: Seq<char>, readable: spec_fn(Seq<char>) -> bool)
    requires
        does_not_count(line, family, readable),
    ensures
        line_values(line, family).filter(readable) == Seq::<Seq<char>>::empty(),
{
    reveal(Seq::filter);
    let v = line_values(line, family);
    if sample_value(line, family) is Some {
        assert(v.drop_last() =~= Seq::<Seq<char>>::empty());
        assert(v.drop_last().filter(readable) =~= Seq::<Seq<char>>::empty());
        assert(v.last() == sample_value(line, family)->0);
    }
    assert(v.filter(readable) =~= Seq::<Seq<char>>::empty());
}

/// A line that does not count changes nothing, wherever it is put into a body as a line of its own.
pub proof fn uncounted_lines_change_nothing(
    before: Seq<char>,
    line: Seq<char>,
    after: Seq<char>,
    family: Seq<char>,
    readable: spec_fn(Seq<char>) -> bool,
)
    requires
        at_line_start(before),
        !line.contains('\n'),
        does_not_count(line, family, readable),
    ensures
        counted(before + line.push('\n') + after, family, readable) == counted(
            before + after,
            family,
            readable,
        ),
        counted(before + line, family, readable) == counted(before, family, readable),
{
    a_line_adds_its_value(before, line, after, family);
    values_split_at_lines(before, after, family);
    uncounted_line(line, family, readable);
    let b = family_values(before, family);
    let l = line_values(line, family);
    let a = family_values(after, family);
    Seq::filter_distributes_over_add(b, l, readable);
    Seq::filter_distributes_over_add(b + l, a, readable);
    Seq::filter_distributes_over_add(b, a, readable);
    assert(b.filter(readable) + l.filter(readable) =~= b.filter(readable));
}

/// Whether no line of a body counts.
pub open spec fn nothing_counts(
    body: Seq<char>,
    family: Seq<char>,
    readable: spec_fn(Seq<char>) -> bool,
) -> bool {
    forall|i: int|
        0 <= i < text::pieces(body, '\n').len() ==> does_not_count(
            #[trigger] text::pieces(body, '\n')[i],
            family,
            readable,
        )
}

/// A body in which no line counts has no value that counts: the family is absent, not zero.
pub proof fn without_counted_lines_there_is_nothing(
    body: Seq<char>,
    family: Seq<char>,
    readable: spec_fn(Seq<char>) -> bool,
)
    requires
        nothing_counts(body, family, readable),
    ensures
        counted(body, family, readable) == Seq::<Seq<char>>::empty(),
{
    nothing_on_uncounted_lines(text::pieces(body, '\n'), family, readable);
}

proof fn nothing_on_uncounted_lines(
    lines: Seq<Seq<char>>,
    family: Seq<char>,
    readable: spec_fn(Seq<char>) -> bool,
)
    requires
        forall|i: int|
            0 <= i < lines.len() ==> does_not_count(#[trigger] lines[i], family, readable),
    ensures
        values_on(lines, family).filter(readable) == Seq::<Seq<char>>::empty(),
    decreases lines.len(),
{
    reveal(Seq::filter);
    if lines.len() > 0 {
        let front = lines.drop_last();
        assert forall|i: int| 0 <= i < front.len() implies does_not_count(
            #[trigger] front[i],
            family,
            readable,
        ) by {
            assert(front[i] == lines[i]);
        }
        nothing_on_uncounted_lines(front, family, readable);
        assert(does_not_count(lines[lines.len() - 1], family, readable));
        values_on(front, family).lemma_filter_push(
            sample_value(lines.last(), family)->0,
            readable,
        );
    }
    assert(values_on(lines, family).filter(readable) =~= Seq::<Seq<char>>::empty());
}

/// Whether a text is one word: not empty, and without white space.
pub open spec fn is_word(s: Seq<char>) -> bool {
    s.len() > 0 && forall|i: int| 0 <= i < s.len() ==> !text::is_space(#[trigger] s[i])
}

proof fn word_of_word(s: Seq<char>)
    requires
        forall|i: int| 0 <= i < s.len() ==> !text::is_space(#[trigger] s[i]),
    ensures
        word(s) == s,
    decreases s.len(),
{
    if s.len() > 0 {
        assert(!text::is_space(s[0]));
        let tail = s.skip(1);
        assert forall|i: int| 0 <= i < tail.len() implies !text::is_space(#[trigger] tail[i]) by {
            assert(tail[i] == s[i + 1]);
        }
        word_of_word(tail);
        assert(seq![s[0]] + tail =~= s);
    } else {
        assert(word(s) =~= s);
    }
}

/// A line of the family's name, a space and a value is a sample with that value.
pub proof fn plain_line_is_a_sample(family: Seq<char>, value: Seq<char>)
    requires
        is_word(family),
        family[0] != '#',
        is_word(value),
    ensures
        sample_value(family + seq![' '] + value, family) == Some(value),
{
    let line = family + seq![' '] + value;
    let rest = seq![' '] + value;
    assert(line[0] == family[0]);
    assert(line.last() == value[value.len() - 1]);
    assert(!text::is_space(family[0]));
    assert(!text::is_space(value[value.len() - 1]));
    assert(text::trimmed(line) == line);
    assert(family =~= line.subrange(0, family.len() as int));
    assert(line.skip(family.len() as int) =~= rest);
    assert(text::is_space(' '));
    assert(rest[0] == ' ');
    assert(rest.skip(1) =~= value);
    assert(!text::is_space(value[0]));
    assert(text::trim_start(value) == value);
    assert(text::trim_start(rest) == text::trim_start(value));
    word_of_word(value);
}

/// One sample among lines that do not count gives its value and no other.
pub proof fn one_sample_gives_its_value(
    before: Seq<char>,
    value: Seq<char>,
    after: Seq<char>,
    family: Seq<char>,
    readable: spec_fn(Seq<char>) -> bool,
)
    requires
        is_word(family),
        family[0] != '#',
        is_word(value),
        readable(value),
        at_line_start(before),
        nothing_counts(before, family, readable),
        nothing_counts(after, family, readable),
    ensures
        counted(
            before + (family + seq![' '] + value).push('\n') + after,
            family,
            readable,
        ) == seq![value],
{
    let line = family + seq![' '] + value;
    plain_line_is_a_sample(family, value);
    assert forall|i: int| 0 <= i < line.len() implies line[i] != '\n' by {
        assert(text::is_space('\n'));
        if i < family.len() {
            assert(!text::is_space(family[i]));
        } else if i > family.len() {
            assert(line[i] == value[i - family.len() - 1]);
            assert(!text::is_space(value[i - family.len() - 1]));
        }
    }
    a_line_adds_its_value(before, line, after, family);
    without_counted_lines_there_is_nothing(before, family, readable);
    without_counted_lines_there_is_nothing(after, family, readable);
    let b = family_values(before, family);
    let l = line_values(line, family);
    let a = family_values(after, family);
    Seq::filter_distributes_over_add(b, l, readable);
    Seq::filter_distributes_over_add(b + l, a, readable);
    assert(l.filter(readable) == seq![value]) by {
        reveal(Seq::filter);
        assert(l.drop_last() =~= Seq::<Seq<char>>::empty());
        assert(l.drop_last().filter(readable) =~= Seq::<Seq<char>>::empty());
        assert(l.filter(readable) =~= seq![value]);
    }
    assert(b.filter(readable) + l.filter(readable) + a.filter(readable) =~= seq![value]);
}

} // verus!
