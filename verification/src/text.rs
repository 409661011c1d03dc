//! Text helpers: equality, ordering, trimming and concatenation of the
//! names the tracker compares, each stated over the characters it reads.

use vstd::prelude::*;

verus! {

/// The views of a run of values, in order.
pub open spec fn views<T: View>(values: Seq<T>) -> Seq<T::V> {
    Seq::new(values.len(), |i: int| values[i]@)
}

/// The view of an optional value.
pub open spec fn opt_view<T: View>(value: Option<T>) -> Option<T::V> {
    match value {
        Some(inner) => Some(inner@),
        None => None,
    }
}

/// Whether two texts hold the same characters.
pub fn same_text(a: &str, b: &str) -> (same: bool)
    ensures
        same == (a@ == b@),
{
    a.to_owned() == b.to_owned()
}

/// Whether an optional text is present and holds these characters.
pub fn is_text(value: &Option<String>, text: &str) -> (same: bool)
    ensures
        same == (opt_view(*value) == Some(text@)),
{
    match value {
        Some(inner) => same_text(inner.as_str(), text),
        None => false,
    }
}

/// Whether two optional texts agree, absence included.
pub fn same_optional_text(a: &Option<String>, b: &Option<String>) -> (same: bool)
    ensures
        same == (opt_view(*a) == opt_view(*b)),
{
    match (a, b) {
        (Some(left), Some(right)) => same_text(left.as_str(), right.as_str()),
        (None, None) => true,
        _ => false,
    }
}

/// A copy of an optional text.
pub fn copy_optional(value: &Option<String>) -> (copy: Option<String>)
    ensures
        copy == *value,
{
    match value {
        Some(inner) => Some(inner.clone()),
        None => None,
    }
}

/// A copy of a list of texts.
pub fn copy_texts(values: &Vec<String>) -> (copy: Vec<String>)
    ensures
        copy@ == values@,
        views(copy@) == views(values@),
{
    let mut copy: Vec<String> = Vec::new();
    let mut i: usize = 0;
    while i < values.len()
        invariant
            i <= values.len(),
            copy@ =~= values@.take(i as int),
        decreases values.len() - i,
    {
        copy.push(values[i].clone());
        i += 1;
    }
    copy
}

/// Whether a list holds this text.
pub fn holds_text(values: &Vec<String>, text: &str) -> (found: bool)
    ensures
        found == views(values@).contains(text@),
{
    let mut i: usize = 0;
    while i < values.len()
        invariant
            i <= values.len(),
            forall|j: int| 0 <= j < i ==> views(values@)[j] != text@,
        decreases values.len() - i,
    {
        if same_text(values[i].as_str(), text) {
            assert(views(values@)[i as int] == text@);
            return true;
        }
        i += 1;
    }
    false
}

/// Two texts in a row.
pub fn cat(a: &str, b: &str) -> (joined: String)
    ensures
        joined@ == a@ + b@,
{
    let mut joined = a.to_owned();
    joined.append(b);
    joined
}

/// Three texts in a row.
pub fn cat3(a: &str, b: &str, c: &str) -> (joined: String)
    ensures
        joined@ == a@ + b@ + c@,
{
    let mut joined = cat(a, b);
    joined.append(c);
    joined
}

/// The texts of a list with a separator between neighbours.
pub open spec fn join_spec(values: Seq<Seq<char>>, separator: Seq<char>) -> Seq<char>
    decreases values.len(),
{
    if values.len() == 0 {
        Seq::empty()
    } else if values.len() == 1 {
        values[0]
    } else {
        join_spec(values.drop_last(), separator) + separator + values.last()
    }
}

/// Join a list with a separator between neighbours.
pub fn join(values: &Vec<String>, separator: &str) -> (joined: String)
    ensures
        joined@ == join_spec(views(values@), separator@),
{
    let mut joined = String::new();
    let mut i: usize = 0;
    while i < values.len()
        invariant
            i <= values.len(),
            joined@ == join_spec(views(values@).take(i as int), separator@),
        decreases values.len() - i,
    {
        proof {
            let next = views(values@).take(i as int + 1);
            assert(next.drop_last() =~= views(values@).take(i as int));
            assert(next.last() == values[i as int]@);
            if i == 0 {
                assert(Seq::<char>::empty() + values[0]@ =~= values[0]@);
            }
        }
        if i > 0 {
            joined.append(separator);
        }
        joined.append(values[i].as_str());
        i += 1;
    }
    assert(views(values@).take(values.len() as int) =~= views(values@));
    joined
}

/// One text sorting before another, character by character in code-point
/// order, a prefix before anything longer.
pub open spec fn lex_less(a: Seq<char>, b: Seq<char>) -> bool
    decreases a.len(),
{
    if b.len() == 0 {
        false
    } else if a.len() == 0 {
        true
    } else if a[0] != b[0] {
        (a[0] as u32) < (b[0] as u32)
    } else {
        lex_less(a.skip(1), b.skip(1))
    }
}

/// Whether one text sorts before another.
pub fn sorts_before(a: &str, b: &str) -> (before: bool)
    ensures
        before == lex_less(a@, b@),
{
    let a_len: usize = a.unicode_len();
    let b_len: usize = b.unicode_len();
    let mut i: usize = 0;
    assert(a@.skip(0) =~= a@);
    assert(b@.skip(0) =~= b@);
    while i < a_len && i < b_len
        invariant
            a_len == a@.len(),
            b_len == b@.len(),
            i <= a_len,
            i <= b_len,
            lex_less(a@, b@) == lex_less(a@.skip(i as int), b@.skip(i as int)),
        decreases a_len - i,
    {
        let left = a.get_char(i);
        let right = b.get_char(i);
        if left != right {
            return (left as u32) < (right as u32);
        }
        assert(a@.skip(i as int).skip(1) =~= a@.skip(i as int + 1));
        assert(b@.skip(i as int).skip(1) =~= b@.skip(i as int + 1));
        i += 1;
    }
    i < b_len
}

proof fn code_points_differ(a: char, b: char)
    ensures
        a as u32 == b as u32 ==> a == b,
{
}

/// Sorting order is total: of two texts one sorts before the other, or they are
/// the same; and never both ways.
pub proof fn lex_less_is_total(a: Seq<char>, b: Seq<char>)
    ensures
        lex_less(a, b) || lex_less(b, a) || a == b,
        !(lex_less(a, b) && lex_less(b, a)),
        lex_less(a, b) ==> a != b,
    decreases a.len(),
{
    if a.len() > 0 && b.len() > 0 && a[0] == b[0] {
        lex_less_is_total(a.skip(1), b.skip(1));
        if a.skip(1) == b.skip(1) {
            assert(a =~= seq![a[0]] + a.skip(1));
            assert(b =~= seq![b[0]] + b.skip(1));
        }
    } else if a.len() == 0 && b.len() == 0 {
        assert(a =~= b);
    } else if a.len() > 0 && b.len() > 0 {
        code_points_differ(a[0], b[0]);
    }
}

/// Sorting order is transitive.
pub proof fn lex_less_is_transitive(a: Seq<char>, b: Seq<char>, c: Seq<char>)
    requires
        lex_less(a, b),
        lex_less(b, c),
    ensures
        lex_less(a, c),
    decreases a.len(),
{
    if a.len() > 0 && b.len() > 0 && c.len() > 0 && a[0] == b[0] && b[0] == c[0] {
        lex_less_is_transitive(a.skip(1), b.skip(1), c.skip(1));
    }
}

/// A name put in its place in a sorted list, unless the list has it.
pub open spec fn insert_name(sorted: Seq<Seq<char>>, name: Seq<char>) -> Seq<Seq<char>>
    decreases sorted.len(),
{
    if sorted.len() == 0 {
        seq![name]
    } else if sorted[0] == name {
        sorted
    } else if lex_less(name, sorted[0]) {
        seq![name] + sorted
    } else {
        seq![sorted[0]] + insert_name(sorted.skip(1), name)
    }
}

/// The distinct names of a list, in sorted order.
pub open spec fn sorted_names(names: Seq<Seq<char>>) -> Seq<Seq<char>>
    decreases names.len(),
{
    if names.len() == 0 {
        Seq::empty()
    } else {
        insert_name(sorted_names(names.drop_last()), names.last())
    }
}

/// Texts in strictly rising order.
pub open spec fn rising(names: Seq<Seq<char>>) -> bool {
    forall|i: int, j: int|
        0 <= i < j < names.len() ==> lex_less(#[trigger] names[i], #[trigger] names[j])
}

proof fn inserting_keeps_order(sorted: Seq<Seq<char>>, name: Seq<char>)
    requires
        rising(sorted),
    ensures
        rising(insert_name(sorted, name)),
        forall|x: Seq<char>| #[trigger]
            insert_name(sorted, name).contains(x) <==> sorted.contains(x) || x == name,
    decreases sorted.len(),
{
    let after = insert_name(sorted, name);
    if sorted.len() == 0 {
        assert(after[0] == name);
    } else if sorted[0] == name {
        assert(sorted.contains(sorted[0]));
    } else if lex_less(name, sorted[0]) {
        assert forall|i: int, j: int| 0 <= i < j < after.len() implies lex_less(
            #[trigger] after[i],
            #[trigger] after[j],
        ) by {
            if i == 0 {
                if j > 1 {
                    assert(lex_less(sorted[0], sorted[j - 1]));
                    lex_less_is_transitive(name, sorted[0], sorted[j - 1]);
                }
            } else {
                assert(lex_less(sorted[i - 1], sorted[j - 1]));
            }
        }
        assert forall|x: Seq<char>| #[trigger] after.contains(x) <==> sorted.contains(x) || x
            == name by {
            if sorted.contains(x) {
                let at = choose|at: int| 0 <= at < sorted.len() && sorted[at] == x;
                assert(after[at + 1] == x);
            }
            assert(after[0] == name);
        }
    } else {
        let rest = sorted.skip(1);
        lex_less_is_total(name, sorted[0]);
        assert forall|i: int, j: int| 0 <= i < j < rest.len() implies lex_less(
            #[trigger] rest[i],
            #[trigger] rest[j],
        ) by {
            assert(lex_less(sorted[i + 1], sorted[j + 1]));
        }
        inserting_keeps_order(rest, name);
        let more = insert_name(rest, name);
        assert forall|i: int, j: int| 0 <= i < j < after.len() implies lex_less(
            #[trigger] after[i],
            #[trigger] after[j],
        ) by {
            if i == 0 {
                assert(more.contains(more[j - 1]));
                if rest.contains(more[j - 1]) {
                    let at = choose|at: int| 0 <= at < rest.len() && rest[at] == more[j - 1];
                    assert(lex_less(sorted[0], sorted[at + 1]));
                }
            } else {
                assert(lex_less(more[i - 1], more[j - 1]));
            }
        }
        assert forall|x: Seq<char>| #[trigger] after.contains(x) <==> sorted.contains(x) || x
            == name by {
            if after.contains(x) {
                let at = choose|at: int| 0 <= at < after.len() && after[at] == x;
                if at == 0 {
                    assert(sorted[0] == x);
                } else {
                    assert(more[at - 1] == x);
                    assert(more.contains(x));
                    if rest.contains(x) {
                        let k = choose|k: int| 0 <= k < rest.len() && rest[k] == x;
                        assert(sorted[k + 1] == x);
                    }
                }
            }
            if sorted.contains(x) || x == name {
                if sorted.contains(x) {
                    let k = choose|k: int| 0 <= k < sorted.len() && sorted[k] == x;
                    if k == 0 {
                        assert(after[0] == x);
                    } else {
                        assert(rest[k - 1] == x);
                    }
                }
                if !(sorted[0] == x) {
                    assert(more.contains(x));
                    let k = choose|k: int| 0 <= k < more.len() && more[k] == x;
                    assert(after[k + 1] == x);
                } else {
                    assert(after[0] == x);
                }
            }
        }
    }
}

/// The sorted names of a list are in strictly rising order, and hold each name
/// of the list, once, and no other.
pub proof fn sorted_names_are_a_sorted_set(names: Seq<Seq<char>>)
    ensures
        rising(sorted_names(names)),
        forall|x: Seq<char>| #[trigger] sorted_names(names).contains(x) <==> names.contains(x),
    decreases names.len(),
{
    if names.len() > 0 {
        let rest = names.drop_last();
        let last = names.last();
        sorted_names_are_a_sorted_set(rest);
        inserting_keeps_order(sorted_names(rest), last);
        assert forall|x: Seq<char>| #[trigger]
            sorted_names(names).contains(x) <==> names.contains(x) by {
            if names.contains(x) {
                let at = choose|at: int| 0 <= at < names.len() && names[at] == x;
                if at < rest.len() {
                    assert(rest[at] == x);
                }
            }
            if rest.contains(x) {
                let at = choose|at: int| 0 <= at < rest.len() && rest[at] == x;
                assert(names[at] == x);
            }
            assert(names[names.len() - 1] == last);
        }
    }
}

proof fn insert_name_after(sorted: Seq<Seq<char>>, name: Seq<char>, at: int)
    requires
        0 <= at <= sorted.len(),
        forall|j: int| 0 <= j < at ==> sorted[j] != name && !lex_less(name, sorted[j]),
    ensures
        insert_name(sorted, name) == sorted.take(at) + insert_name(sorted.skip(at), name),
    decreases at,
{
    if at == 0 {
        assert(sorted.skip(0) =~= sorted);
        assert(sorted.take(0) + insert_name(sorted, name) =~= insert_name(sorted, name));
    } else {
        let rest = sorted.skip(1);
        assert forall|j: int| 0 <= j < at - 1 implies rest[j] != name && !lex_less(
            name,
            rest[j],
        ) by {
            assert(rest[j] == sorted[j + 1]);
        }
        insert_name_after(rest, name, at - 1);
        assert(rest.skip(at - 1) =~= sorted.skip(at));
        assert(seq![sorted[0]] + rest.take(at - 1) =~= sorted.take(at));
        assert(seq![sorted[0]] + (rest.take(at - 1) + insert_name(sorted.skip(at), name))
            =~= sorted.take(at) + insert_name(sorted.skip(at), name));
    }
}

/// Put a name in its place in a sorted list, unless the list has it.
pub fn place_name(sorted: &mut Vec<String>, name: &str)
    ensures
        views(final(sorted)@) == insert_name(views(old(sorted)@), name@),
{
    let ghost before = views(sorted@);
    let mut at: usize = 0;
    while at < sorted.len()
        invariant
            at <= sorted.len(),
            sorted@ == old(sorted)@,
            before == views(old(sorted)@),
            forall|j: int| 0 <= j < at ==> before[j] != name@ && !lex_less(name@, before[j]),
        decreases sorted.len() - at,
    {
        if same_text(sorted[at].as_str(), name) {
            proof {
                insert_name_after(before, name@, at as int);
                assert(before.skip(at as int)[0] == name@);
                assert(before.take(at as int) + before.skip(at as int) =~= before);
            }
            return ;
        }
        if sorts_before(name, sorted[at].as_str()) {
            proof {
                insert_name_after(before, name@, at as int);
                assert(before.skip(at as int)[0] == before[at as int]);
                assert(before.take(at as int) + (seq![name@] + before.skip(at as int))
                    =~= before.insert(at as int, name@));
            }
            sorted.insert(at, name.to_owned());
            assert(views(sorted@) =~= before.insert(at as int, name@));
            return ;
        }
        at += 1;
    }
    proof {
        insert_name_after(before, name@, before.len() as int);
        assert(before.skip(before.len() as int) =~= Seq::empty());
        assert(before.take(before.len() as int) + seq![name@] =~= before.push(name@));
    }
    sorted.push(name.to_owned());
    assert(views(sorted@) =~= before.push(name@));
}

/// The decimal digit of a value below ten.
pub open spec fn digit_spec(value: nat) -> Seq<char> {
    if value == 0 {
        "0"@
    } else if value == 1 {
        "1"@
    } else if value == 2 {
        "2"@
    } else if value == 3 {
        "3"@
    } else if value == 4 {
        "4"@
    } else if value == 5 {
        "5"@
    } else if value == 6 {
        "6"@
    } else if value == 7 {
        "7"@
    } else if value == 8 {
        "8"@
    } else {
        "9"@
    }
}

/// A count in decimal digits.
pub open spec fn decimal_spec(value: nat) -> Seq<char>
    decreases value,
{
    if value < 10 {
        digit_spec(value)
    } else {
        decimal_spec(value / 10) + digit_spec(value % 10)
    }
}

fn digit(value: usize) -> (text: &'static str)
    requires
        value < 10,
    ensures
        text@ == digit_spec(value as nat),
{
    if value == 0 {
        "0"
    } else if value == 1 {
        "1"
    } else if value == 2 {
        "2"
    } else if value == 3 {
        "3"
    } else if value == 4 {
        "4"
    } else if value == 5 {
        "5"
    } else if value == 6 {
        "6"
    } else if value == 7 {
        "7"
    } else if value == 8 {
        "8"
    } else {
        "9"
    }
}

/// Write a count in decimal digits.
pub fn decimal(value: usize) -> (text: String)
    ensures
        text@ == decimal_spec(value as nat),
    decreases value,
{
    if value < 10 {
        digit(value).to_owned()
    } else {
        let mut text = decimal(value / 10);
        text.append(digit(value % 10));
        text
    }
}

/// A character folded to ASCII lower case.
pub open spec fn ascii_lower(c: char) -> u32 {
    let code = c as u32;
    if 65 <= code <= 90 {
        (code + 32) as u32
    } else {
        code
    }
}

/// Two texts equal when ASCII letters are compared without case.
pub open spec fn same_ignoring_ascii_case(a: Seq<char>, b: Seq<char>) -> bool {
    a.len() == b.len() && forall|i: int|
        #![trigger a[i]]
        0 <= i < a.len() ==> ascii_lower(a[i]) == ascii_lower(b[i])
}

fn folded(c: char) -> (code: u32)
    ensures
        code == ascii_lower(c),
{
    let code: u32 = c as u32;
    if 65 <= code && code <= 90 {
        code + 32
    } else {
        code
    }
}

/// Whether two texts are equal when ASCII letters are compared without case.
pub fn eq_ignore_ascii_case(a: &str, b: &str) -> (same: bool)
    ensures
        same == same_ignoring_ascii_case(a@, b@),
{
    let len: usize = a.unicode_len();
    if len != b.unicode_len() {
        return false;
    }
    let mut i: usize = 0;
    while i < len
        invariant
            i <= len,
            len == a@.len(),
            len == b@.len(),
            forall|j: int| #![trigger a@[j]] 0 <= j < i ==> ascii_lower(a@[j]) == ascii_lower(b@[j]),
        decreases len - i,
    {
        if folded(a.get_char(i)) != folded(b.get_char(i)) {
            assert(ascii_lower(a@[i as int]) != ascii_lower(b@[i as int]));
            return false;
        }
        i += 1;
    }
    true
}

/// Whether a character has the Unicode `White_Space` property.
pub open spec fn white_space(c: char) -> bool {
    let code = c as u32;
    ||| 0x9 <= code <= 0xd || code == 0x20 || code == 0x85 || code == 0xa0
    ||| code == 0x1680 || 0x2000 <= code <= 0x200a
    ||| code == 0x2028 || code == 0x2029 || code == 0x202f || code == 0x205f || code == 0x3000
}

fn is_white_space(c: char) -> (space: bool)
    ensures
        space == white_space(c),
{
    let code: u32 = c as u32;
    (0x9 <= code && code <= 0xd) || code == 0x20 || code == 0x85 || code == 0xa0 || code == 0x1680
        || (0x2000 <= code && code <= 0x200a) || code == 0x2028 || code == 0x2029 || code == 0x202f
        || code == 0x205f || code == 0x3000
}

/// The characters stripped from declared names: Unicode white space and the
/// four information separators.
pub open spec fn name_space(c: char) -> bool {
    white_space(c) || 0x1c <= (c as u32) <= 0x1f
}

/// Whether a strip drops this character at an end; the separators beside
/// the white space are dropped too when `wide` is set.
pub open spec fn strips(c: char, wide: bool) -> bool {
    if wide {
        name_space(c)
    } else {
        white_space(c)
    }
}

/// A text without its leading strippable characters.
pub open spec fn without_lead(text: Seq<char>, wide: bool) -> Seq<char>
    decreases text.len(),
{
    if text.len() > 0 && strips(text[0], wide) {
        without_lead(text.skip(1), wide)
    } else {
        text
    }
}

/// A text without its trailing strippable characters.
pub open spec fn without_trail(text: Seq<char>, wide: bool) -> Seq<char>
    decreases text.len(),
{
    if text.len() > 0 && strips(text.last(), wide) {
        without_trail(text.drop_last(), wide)
    } else {
        text
    }
}

/// A text stripped at both ends.
pub open spec fn stripped(text: Seq<char>, wide: bool) -> Seq<char> {
    without_trail(without_lead(text, wide), wide)
}

fn strippable(c: char, wide: bool) -> (yes: bool)
    ensures
        yes == strips(c, wide),
{
    let code: u32 = c as u32;
    is_white_space(c) || (wide && 0x1c <= code && code <= 0x1f)
}

/// Strip a text at both ends.
pub fn strip(text: &str, wide: bool) -> (inner: String)
    ensures
        inner@ == stripped(text@, wide),
{
    let len: usize = text.unicode_len();
    let mut from: usize = 0;
    assert(text@.subrange(0, len as int) =~= text@);
    while from < len && strippable(text.get_char(from), wide)
        invariant
            from <= len,
            len == text@.len(),
            without_lead(text@, wide) == without_lead(
                text@.subrange(from as int, len as int),
                wide,
            ),
        decreases len - from,
    {
        assert(text@.subrange(from as int, len as int).skip(1) =~= text@.subrange(
            from as int + 1,
            len as int,
        ));
        from += 1;
    }
    let ghost rest = text@.subrange(from as int, len as int);
    let mut to: usize = len;
    while from < to && strippable(text.get_char(to - 1), wide)
        invariant
            from <= to <= len,
            len == text@.len(),
            without_trail(rest, wide) == without_trail(
                text@.subrange(from as int, to as int),
                wide,
            ),
        decreases to - from,
    {
        assert(text@.subrange(from as int, to as int).drop_last() =~= text@.subrange(
            from as int,
            to as int - 1,
        ));
        to -= 1;
    }
    text.substring_char(from, to).to_owned()
}

/// What Unicode lower-casing makes of a text.
pub uninterp spec fn lower_case(text: Seq<char>) -> Seq<char>;

/// `str::to_lowercase`: the text in lower case by the Unicode mapping, which
/// depends on the characters alone and is named rather than spelled out.
#[verifier::external_body]
fn to_lower_case(text: &str) -> (lower: String)
    ensures
        lower@ == lower_case(text@),
{
    text.to_lowercase()
}

/// Whether two texts have the same lower-case form.
pub fn same_lower_case(a: &str, b: &str) -> (same: bool)
    ensures
        same == (lower_case(a@) == lower_case(b@)),
{
    to_lower_case(a) == to_lower_case(b)
}

/// A run of characters standing somewhere inside a text.
pub open spec fn contains_run(text: Seq<char>, run: Seq<char>) -> bool {
    exists|at: int|
        0 <= at && at + run.len() <= text.len() && #[trigger] text.subrange(at, at + run.len())
            == run
}

/// Whether a run of characters stands somewhere inside a text.
pub fn has_run(text: &str, run: &str) -> (found: bool)
    ensures
        found == contains_run(text@, run@),
{
    let len: usize = text.unicode_len();
    let width: usize = run.unicode_len();
    if width > len {
        return false;
    }
    let mut at: usize = 0;
    while at <= len - width
        invariant
            len == text@.len(),
            width == run@.len(),
            width <= len,
            at <= len - width + 1,
            forall|j: int| 0 <= j < at ==> #[trigger] text@.subrange(j, j + width) != run@,
        decreases len - width + 1 - at,
    {
        if same_text(text.substring_char(at, at + width), run) {
            return true;
        }
        if at == len - width {
            return false;
        }
        at += 1;
    }
    false
}

/// Whether the lower-case form of a text holds a run of characters.
pub fn lower_has_run(text: &str, run: &str) -> (found: bool)
    ensures
        found == contains_run(lower_case(text@), run@),
{
    has_run(to_lower_case(text).as_str(), run)
}

/// Whether a text begins with a run of characters.
pub fn begins_with(text: &str, run: &str) -> (found: bool)
    ensures
        found == run@.is_prefix_of(text@),
{
    let len: usize = text.unicode_len();
    let width: usize = run.unicode_len();
    if width > len {
        return false;
    }
    let head = text.substring_char(0, width);
    let same: bool = same_text(head, run);
    proof {
        if same {
            assert(text@.subrange(0, run@.len() as int) =~= run@);
        }
    }
    same
}

/// Whether a text ends with a run of characters.
pub fn finishes_with(text: &str, run: &str) -> (found: bool)
    ensures
        found == run@.is_suffix_of(text@),
{
    let len: usize = text.unicode_len();
    let width: usize = run.unicode_len();
    if width > len {
        return false;
    }
    same_text(text.substring_char(len - width, len), run)
}

} // verus!
