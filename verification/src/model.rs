//! The mathematical model of the attribute grammar and of the merge.
//!
//! All functions here are specification functions over `Seq<char>`; the
//! executable code in `attr` is verified against them.

use vstd::prelude::*;

verus! {

/// A whitespace character of the attribute grammar: the characters accepted
/// around the `=` of a `name = value` pair and after a separating comma.
pub open spec fn ws_char(c: char) -> bool {
    c == ' ' || c == '\t' || c == '\n' || c == '\r'
}

/// A character that may stand inside an attribute value: a value is a maximal
/// run of characters that are neither a comma nor whitespace.
pub open spec fn value_char(c: char) -> bool {
    c != ',' && !ws_char(c)
}

/// The opening of the group the merge maintains.
pub open spec fn fields_open() -> Seq<char> {
    "fields("@
}

/// The closing parenthesis of the group.
pub open spec fn close_paren() -> Seq<char> {
    ")"@
}

/// The separator written between two non-empty field lists.
pub open spec fn sep() -> Seq<char> {
    ", "@
}

/// The one required-attribute name the merge supports.
pub open spec fn supported_name() -> Seq<char> {
    "service_name"@
}

/// The renamed key (with its ` = `) under which a relocated required
/// attribute enters the fields group.
pub open spec fn renamed_lead() -> Seq<char> {
    "service.name = "@
}

/// `pat` occurs in `s` at position `i`.
pub open spec fn occurs_at(s: Seq<char>, pat: Seq<char>, i: int) -> bool {
    0 <= i && i + pat.len() <= s.len() && s.subrange(i, i + pat.len() as int) == pat
}

/// `i` is the position of the first occurrence of `pat` in `s`.
pub open spec fn is_first_occurrence(s: Seq<char>, pat: Seq<char>, i: int) -> bool {
    occurs_at(s, pat, i) && forall|j: int| 0 <= j < i ==> !occurs_at(s, pat, j)
}

/// `s` holds a `fields(` opening somewhere.
pub open spec fn has_fields_open(s: Seq<char>) -> bool {
    exists|i: int| occurs_at(s, fields_open(), i)
}

/// The position of the first `fields(` opening in `s`.
pub open spec fn first_fields_open(s: Seq<char>) -> int {
    choose|i: int| is_first_occurrence(s, fields_open(), i)
}

/// The running parenthesis balance of `s`: opening parentheses count one up,
/// closing ones one down.
pub open spec fn paren_delta(s: Seq<char>) -> int
    decreases s.len(),
{
    if s.len() == 0 {
        0
    } else {
        paren_delta(s.drop_last()) + (
        if s.last() == '(' {
            1int
        } else if s.last() == ')' {
            -1int
        } else {
            0int
        })
    }
}

/// Position `j` of `s` closes a group whose opening parenthesis stands just
/// before `s`: the balance of everything before `j` is zero and `s[j]` is a
/// closing parenthesis.
pub open spec fn close_at(s: Seq<char>, j: int) -> bool {
    0 <= j < s.len() && s[j] == ')' && paren_delta(s.take(j)) == 0
}

/// Some position of `s` closes the group opened just before `s`.
pub open spec fn has_group_close(s: Seq<char>) -> bool {
    exists|j: int| close_at(s, j)
}

/// `j` is the first position of `s` that closes the group opened just before
/// `s`: the matching closing parenthesis found by depth counting.
pub open spec fn is_group_close(s: Seq<char>, j: int) -> bool {
    close_at(s, j) && forall|k: int| 0 <= k < j ==> !close_at(s, k)
}

/// The position of the matching closing parenthesis.
pub open spec fn first_group_close(s: Seq<char>) -> int {
    choose|j: int| is_group_close(s, j)
}

/// Splits `s` around its first `fields(...)` group: the text before
/// `fields(`, the group interior, and the text after the matching closing
/// parenthesis. `None` when the group has no matching closing parenthesis.
pub open spec fn split_at_group(s: Seq<char>) -> Option<(Seq<char>, Seq<char>, Seq<char>)>
    recommends
        has_fields_open(s),
{
    let i = first_fields_open(s);
    let rest = s.skip(i + fields_open().len() as int);
    if has_group_close(rest) {
        let j = first_group_close(rest);
        Some((s.take(i), rest.take(j), rest.skip(j + 1)))
    } else {
        None
    }
}

/// A required-attribute match begins at position `i` of `s`: the supported
/// name, one whitespace character, `=`, one whitespace character, and at
/// least one value character.
pub open spec fn attr_match_at(s: Seq<char>, i: int) -> bool {
    let n = supported_name().len() as int;
    &&& occurs_at(s, supported_name(), i)
    &&& i + n + 3 < s.len()
    &&& ws_char(s[i + n])
    &&& s[i + n + 1] == '='
    &&& ws_char(s[i + n + 2])
    &&& value_char(s[i + n + 3])
}

/// Some required-attribute match begins somewhere in `s`.
pub open spec fn has_attr_match(s: Seq<char>) -> bool {
    exists|i: int| attr_match_at(s, i)
}

/// `i` is the position of the leftmost required-attribute match in `s`.
pub open spec fn is_first_attr_match(s: Seq<char>, i: int) -> bool {
    attr_match_at(s, i) && forall|j: int| 0 <= j < i ==> !attr_match_at(s, j)
}

/// The position of the leftmost required-attribute match.
pub open spec fn first_attr_match(s: Seq<char>) -> int {
    choose|i: int| is_first_attr_match(s, i)
}

/// The end of the maximal run of value characters of `s` that starts at `k`.
pub open spec fn value_end(s: Seq<char>, k: int) -> int
    recommends
        0 <= k <= s.len(),
    decreases s.len() - k,
{
    if k < 0 || k >= s.len() {
        k
    } else if value_char(s[k]) {
        value_end(s, k + 1)
    } else {
        k
    }
}

/// The end of the matched span: the value, then an optional comma, then an
/// optional whitespace character.
pub open spec fn match_end(s: Seq<char>, ve: int) -> int {
    let e = if ve < s.len() && s[ve] == ',' {
        ve + 1
    } else {
        ve
    };
    if e < s.len() && ws_char(s[e]) {
        e + 1
    } else {
        e
    }
}

/// Extracts the leftmost required-attribute match from `s`: the text with the
/// matched span removed, and the relocated field under its renamed key.
/// `None` when no match occurs.
pub open spec fn extract_one(s: Seq<char>) -> Option<(Seq<char>, Seq<char>)> {
    if has_attr_match(s) {
        let i = first_attr_match(s);
        let v0 = i + supported_name().len() + 3;
        let ve = value_end(s, v0 as int);
        let e = match_end(s, ve);
        Some((s.take(i) + s.skip(e), renamed_lead() + s.subrange(v0 as int, ve)))
    } else {
        None
    }
}

/// Why a merge fails.
pub enum MergeErr {
    /// A required-attribute name other than the supported one was requested.
    Unsupported { name: Seq<char> },
    /// A requested required attribute occurs nowhere in the input.
    Missing { name: Seq<char> },
    /// Required attributes were requested although the input is empty.
    RequiredOnEmpty,
    /// The `fields(...)` group has no matching closing parenthesis, or the
    /// input's only `fields(` opening was carried away inside an extracted
    /// value.
    MalformedNesting,
}

/// Joins two field lists: the separator is written only when both are
/// non-empty.
pub open spec fn join2(a: Seq<char>, b: Seq<char>) -> Seq<char> {
    if a.len() == 0 {
        b
    } else if b.len() == 0 {
        a
    } else {
        a + sep() + b
    }
}

/// Extracts each requested required attribute in turn, each from the text the
/// previous extraction left. The relocated fields are joined in request
/// order; any name other than the supported one is refused before its
/// extraction is attempted.
pub open spec fn extract_list(s: Seq<char>, names: Seq<Seq<char>>) -> Result<
    (Seq<char>, Seq<char>),
    MergeErr,
>
    decreases names.len(),
{
    if names.len() == 0 {
        Ok((s, Seq::empty()))
    } else if names[0] != supported_name() {
        Err(MergeErr::Unsupported { name: names[0] })
    } else {
        match extract_one(s) {
            None => Err(MergeErr::Missing { name: names[0] }),
            Some((rem, fld)) => match extract_list(rem, names.drop_first()) {
                Err(e) => Err(e),
                Ok((rem2, flds)) => Ok((rem2, join2(fld, flds))),
            },
        }
    }
}

/// The names requested: an absent list asks for nothing.
pub open spec fn names_of(required: Option<Seq<Seq<char>>>) -> Seq<Seq<char>> {
    match required {
        Some(ns) => ns,
        None => Seq::empty(),
    }
}

/// The merge. An empty input creates the group from the extra fields alone
/// (required attributes may not be requested of it). Otherwise the required
/// attributes are extracted first; when the input already holds a `fields(`
/// group the merged interior replaces the old one between the preserved
/// prefix and suffix, and when it does not, the remaining text is placed
/// before a new group.
pub open spec fn merge_spec(
    input: Seq<char>,
    extra: Seq<char>,
    required: Option<Seq<Seq<char>>>,
) -> Result<Seq<char>, MergeErr> {
    if input.len() == 0 {
        if names_of(required).len() > 0 {
            Err(MergeErr::RequiredOnEmpty)
        } else {
            Ok(fields_open() + extra + close_paren())
        }
    } else {
        match extract_list(input, names_of(required)) {
            Err(e) => Err(e),
            Ok((rem, flds)) => {
                if has_fields_open(input) {
                    if !has_fields_open(rem) {
                        Err(MergeErr::MalformedNesting)
                    } else {
                        match split_at_group(rem) {
                            None => Err(MergeErr::MalformedNesting),
                            Some((pre, interior, suf)) => Ok(
                                pre + fields_open() + join2(interior, join2(extra, flds))
                                    + close_paren() + suf,
                            ),
                        }
                    }
                } else {
                    let lead = if rem.len() == 0 {
                        Seq::<char>::empty()
                    } else {
                        rem + sep()
                    };
                    Ok(lead + fields_open() + join2(extra, flds) + close_paren())
                }
            },
        }
    }
}

/// The remaining text of a successful single extraction.
pub open spec fn extracted_rem(s: Seq<char>) -> Seq<char>
    recommends
        extract_one(s) is Some,
{
    (extract_one(s)->0).0
}

/// The relocated field of a successful single extraction.
pub open spec fn extracted_field(s: Seq<char>) -> Seq<char>
    recommends
        extract_one(s) is Some,
{
    (extract_one(s)->0).1
}

/// The joined relocated fields of a successful list extraction.
pub open spec fn listed_fields(s: Seq<char>, names: Seq<Seq<char>>) -> Seq<char>
    recommends
        extract_list(s, names) is Ok,
{
    (extract_list(s, names)->Ok_0).1
}

/// `s` begins with the separator `", "`.
pub open spec fn starts_with_sep(s: Seq<char>) -> bool {
    s.len() >= 2 && s.subrange(0, 2) == sep()
}

/// `s` ends with the separator `", "`.
pub open spec fn ends_with_sep(s: Seq<char>) -> bool {
    s.len() >= 2 && s.subrange(s.len() - 2, s.len() as int) == sep()
}

/// `value_end` stays within bounds, and everything before it is a value
/// character.
pub proof fn lemma_value_end_bounds(s: Seq<char>, k: int)
    requires
        0 <= k <= s.len(),
    ensures
        k <= value_end(s, k) <= s.len(),
        forall|m: int| k <= m < value_end(s, k) ==> value_char(s[m]),
    decreases s.len() - k,
{
    if k < s.len() && value_char(s[k]) {
        lemma_value_end_bounds(s, k + 1);
    }
}

/// Where any required-attribute match exists, a leftmost one exists.
pub proof fn lemma_first_attr_match_exists(s: Seq<char>, i: int)
    requires
        attr_match_at(s, i),
    ensures
        exists|k: int| is_first_attr_match(s, k),
    decreases i,
{
    if forall|j: int| 0 <= j < i ==> !attr_match_at(s, j) {
        assert(is_first_attr_match(s, i));
    } else {
        let j = choose|j: int| 0 <= j < i && attr_match_at(s, j);
        lemma_first_attr_match_exists(s, j);
    }
}

/// Two first occurrences of the same pattern coincide.
pub proof fn lemma_first_occurrence_unique(s: Seq<char>, pat: Seq<char>, i1: int, i2: int)
    requires
        is_first_occurrence(s, pat, i1),
        is_first_occurrence(s, pat, i2),
    ensures
        i1 == i2,
{
    if i1 < i2 {
        assert(!occurs_at(s, pat, i1));
    }
    if i2 < i1 {
        assert(!occurs_at(s, pat, i2));
    }
}

/// Two matching closing positions coincide.
pub proof fn lemma_group_close_unique(s: Seq<char>, j1: int, j2: int)
    requires
        is_group_close(s, j1),
        is_group_close(s, j2),
    ensures
        j1 == j2,
{
    if j1 < j2 {
        assert(!close_at(s, j1));
    }
    if j2 < j1 {
        assert(!close_at(s, j2));
    }
}

/// Two leftmost required-attribute matches coincide.
pub proof fn lemma_first_attr_match_unique(s: Seq<char>, i1: int, i2: int)
    requires
        is_first_attr_match(s, i1),
        is_first_attr_match(s, i2),
    ensures
        i1 == i2,
{
    if i1 < i2 {
        assert(!attr_match_at(s, i1));
    }
    if i2 < i1 {
        assert(!attr_match_at(s, i2));
    }
}

} // verus!
