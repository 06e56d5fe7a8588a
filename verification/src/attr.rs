//! The verified merge: scanning, extraction, and composition of attribute
//! argument text.

use vstd::prelude::*;

use crate::model::{
    attr_match_at, close_at, close_paren, extract_list, extract_one, fields_open, first_attr_match,
    first_fields_open, first_group_close, has_attr_match, has_fields_open, has_group_close,
    is_first_attr_match, is_first_occurrence, is_group_close, join2, match_end, merge_spec,
    names_of, occurs_at, paren_delta, renamed_lead, value_char, value_end, ws_char, MergeErr,
};

verus! {

/// Why `extend_fields` refused its input; one variant per failure of the
/// merge's error taxonomy.
#[derive(Debug, PartialEq, Eq)]
pub enum ExtendError {
    /// A required-attribute name other than the supported one was requested.
    Configuration { name: String },
    /// A requested required attribute occurs nowhere in the input.
    MissingAttribute { name: String },
    /// Required attributes were requested although the input is empty.
    RequiredOnEmpty,
    /// The `fields(...)` group has no matching closing parenthesis, or the
    /// input's only `fields(` opening was carried away inside an extracted
    /// value.
    MalformedNesting,
}

/// The abstract error a concrete one stands for.
pub open spec fn err_corresponds(e: MergeErr, x: ExtendError) -> bool {
    match e {
        MergeErr::Unsupported { name } => x matches ExtendError::Configuration { name: n } && n@
            == name,
        MergeErr::Missing { name } => x matches ExtendError::MissingAttribute { name: n } && n@
            == name,
        MergeErr::RequiredOnEmpty => x is RequiredOnEmpty,
        MergeErr::MalformedNesting => x is MalformedNesting,
    }
}

/// Whether a whitespace character of the grammar.
fn is_ws(c: char) -> (r: bool)
    ensures
        r == ws_char(c),
{
    c == ' ' || c == '\t' || c == '\n' || c == '\r'
}

/// Whether a character that may stand inside a value.
fn is_value_char(c: char) -> (r: bool)
    ensures
        r == value_char(c),
{
    c != ',' && !is_ws(c)
}

/// Does `pat` occur in `s` at position `i`?
fn occurs_here(s: &str, pat: &str, i: usize) -> (r: bool)
    requires
        i + pat@.len() <= s@.len(),
    ensures
        r == occurs_at(s@, pat@, i as int),
{
    let slen = s.unicode_len();
    let plen = pat.unicode_len();
    let mut k: usize = 0;
    while k < plen
        invariant
            slen == s@.len(),
            plen == pat@.len(),
            i + plen <= s@.len(),
            0 <= k <= plen,
            forall|j: int| 0 <= j < k ==> s@[i + j] == pat@[j],
        decreases plen - k,
    {
        if s.get_char(i + k) != pat.get_char(k) {
            assert(s@.subrange(i as int, i + plen as int)[k as int] == s@[i + k]);
            return false;
        }
        k += 1;
    }
    assert(s@.subrange(i as int, i + plen as int) =~= pat@);
    true
}

/// The position of the first occurrence of `pat` in `s`, if any.
fn find_first(s: &str, pat: &str) -> (r: Option<usize>)
    ensures
        match r {
            Some(i) => is_first_occurrence(s@, pat@, i as int),
            None => forall|i: int| !occurs_at(s@, pat@, i),
        },
{
    let slen = s.unicode_len();
    let plen = pat.unicode_len();
    if plen == 0 {
        assert(s@.subrange(0, 0) =~= pat@);
        return Some(0);
    }
    if plen > slen {
        return None;
    }
    let mut i: usize = 0;
    while i <= slen - plen
        invariant
            slen == s@.len(),
            plen == pat@.len(),
            0 < plen <= slen,
            0 <= i <= slen - plen + 1,
            forall|j: int| 0 <= j < i ==> !occurs_at(s@, pat@, j),
        decreases slen - i,
    {
        if occurs_here(s, pat, i) {
            return Some(i);
        }
        i += 1;
    }
    None
}

/// One scanning step changes the balance by the character's own weight.
proof fn lemma_paren_delta_step(s: Seq<char>, j: int)
    requires
        0 <= j < s.len(),
    ensures
        paren_delta(s.take(j + 1)) == paren_delta(s.take(j)) + (
        if s[j] == '(' {
            1int
        } else if s[j] == ')' {
            -1int
        } else {
            0int
        }),
{
    assert(s.take(j + 1).drop_last() =~= s.take(j));
    assert(s.take(j + 1).last() == s[j]);
}

/// The position of the closing parenthesis that matches an opening one
/// standing just before `s`, found by depth counting.
fn find_group_close(s: &str) -> (r: Option<usize>)
    ensures
        match r {
            Some(j) => is_group_close(s@, j as int),
            None => !has_group_close(s@),
        },
{
    let slen = s.unicode_len();
    let mut j: usize = 0;
    let mut depth: u128 = 1;
    while j < slen
        invariant
            slen == s@.len(),
            0 <= j <= slen,
            1 <= depth <= 1 + j,
            depth as int == 1 + paren_delta(s@.take(j as int)),
            forall|k: int| 0 <= k < j ==> !close_at(s@, k),
        decreases slen - j,
    {
        let c = s.get_char(j);
        proof {
            lemma_paren_delta_step(s@, j as int);
        }
        if c == ')' {
            if depth == 1 {
                return Some(j);
            }
            depth = depth - 1;
        } else if c == '(' {
            depth = depth + 1;
        }
        j += 1;
    }
    None
}

/// Does a required-attribute match begin at position `i` of `s`?
fn attr_match_here(s: &str, i: usize, slen: usize) -> (r: bool)
    requires
        slen == s@.len(),
        i <= slen,
    ensures
        r == attr_match_at(s@, i as int),
{
    let name = "service_name";
    let n = name.unicode_len();
    if slen - i < n {
        return false;
    }
    if !occurs_here(s, name, i) {
        return false;
    }
    if slen - (i + n) < 4 {
        return false;
    }
    if !is_ws(s.get_char(i + n)) {
        return false;
    }
    if s.get_char(i + n + 1) != '=' {
        return false;
    }
    if !is_ws(s.get_char(i + n + 2)) {
        return false;
    }
    is_value_char(s.get_char(i + n + 3))
}

/// The position of the leftmost required-attribute match in `s`, if any.
fn find_attr_match(s: &str) -> (r: Option<usize>)
    ensures
        match r {
            Some(i) => is_first_attr_match(s@, i as int),
            None => !has_attr_match(s@),
        },
{
    let slen = s.unicode_len();
    let mut i: usize = 0;
    while i < slen
        invariant
            slen == s@.len(),
            0 <= i <= slen,
            forall|j: int| 0 <= j < i ==> !attr_match_at(s@, j),
        decreases slen - i,
    {
        if attr_match_here(s, i, slen) {
            return Some(i);
        }
        i += 1;
    }
    None
}

/// Removes the leftmost required-attribute match from `s`: the text with the
/// matched span taken out, and the relocated field under its renamed key.
fn remove_required_attribute(s: &str) -> (r: Option<(String, String)>)
    ensures
        match extract_one(s@) {
            None => r is None,
            Some((rem, fld)) => r matches Some(p) && p.0@ == rem && p.1@ == fld,
        },
{
    let slen = s.unicode_len();
    match find_attr_match(s) {
        None => None,
        Some(i) => {
            proof {
                assert(has_attr_match(s@));
                crate::model::lemma_first_attr_match_unique(
                    s@,
                    i as int,
                    first_attr_match(s@),
                );
            }
            let n = "service_name".unicode_len();
            let v0 = i + n + 3;
            let mut ve = v0;
            loop
                invariant
                    slen == s@.len(),
                    v0 <= ve <= slen,
                    value_end(s@, v0 as int) == value_end(s@, ve as int),
                ensures
                    v0 <= ve <= slen,
                    value_end(s@, v0 as int) == ve as int,
                decreases slen - ve,
            {
                if ve == slen {
                    break ;
                }
                if !is_value_char(s.get_char(ve)) {
                    break ;
                }
                ve += 1;
            }
            let mut e = ve;
            if e < slen && s.get_char(e) == ',' {
                e += 1;
            }
            if e < slen && is_ws(s.get_char(e)) {
                e += 1;
            }
            proof {
                assert(e as int == match_end(s@, ve as int));
            }
            let mut rem = s.substring_char(0, i).to_owned();
            rem.append(s.substring_char(e, slen));
            let mut fld = "service.name = ".to_owned();
            fld.append(s.substring_char(v0, ve));
            proof {
                assert(rem@ =~= s@.take(i as int) + s@.skip(e as int));
                assert(fld@ =~= renamed_lead() + s@.subrange(v0 as int, ve as int));
            }
            Some((rem, fld))
        },
    }
}

/// Whether two string slices hold the same characters.
fn str_eq(a: &str, b: &str) -> (r: bool)
    ensures
        r == (a@ == b@),
{
    let sa = a.to_owned();
    let sb = b.to_owned();
    sa == sb
}

/// Joins two field lists, writing the separator only between two non-empty
/// ones.
fn join_sep(a: &str, b: &str) -> (r: String)
    ensures
        r@ == join2(a@, b@),
{
    if a.is_empty() {
        b.to_owned()
    } else if b.is_empty() {
        a.to_owned()
    } else {
        let mut r = a.to_owned();
        r.append(", ");
        r.append(b);
        r
    }
}

/// Extracts the names from position `k` on, each from the text the previous
/// extraction left.
fn extract_from(input: &str, names: &Vec<&str>, k: usize) -> (r: Result<
    (String, String),
    ExtendError,
>)
    requires
        k <= names@.len(),
    ensures
        match extract_list(input@, names.deep_view().skip(k as int)) {
            Ok((rem, flds)) => r matches Ok(p) && p.0@ == rem && p.1@ == flds,
            Err(e) => r matches Err(x) && err_corresponds(e, x),
        },
    decreases names@.len() - k,
{
    proof {
        assert(names.deep_view().skip(k as int).len() == names@.len() - k);
    }
    if k == names.len() {
        return Ok((input.to_owned(), String::new()));
    }
    let name: &str = names[k];
    proof {
        assert(names.deep_view().skip(k as int)[0] == names@[k as int]@);
        assert(names.deep_view().skip(k as int).drop_first() =~= names.deep_view().skip(
            k as int + 1,
        ));
    }
    if !str_eq(name, "service_name") {
        return Err(ExtendError::Configuration { name: name.to_owned() });
    }
    match remove_required_attribute(input) {
        None => Err(ExtendError::MissingAttribute { name: name.to_owned() }),
        Some((rem, fld)) => match extract_from(rem.as_str(), names, k + 1) {
            Err(e) => Err(e),
            Ok((rem2, flds)) => Ok((rem2, join_sep(fld.as_str(), flds.as_str()))),
        },
    }
}

/// The spec-level names an optional request list stands for.
pub open spec fn opt_names(required: Option<Vec<&str>>) -> Option<Seq<Seq<char>>> {
    match required {
        Some(v) => Some(v.deep_view()),
        None => None,
    }
}

/// Pulls each requested required attribute out of `input`, in request order,
/// each search running over the text the previous removal left. Returns the
/// remaining text and the relocated fields joined with `", "`. A name other
/// than the supported one is refused before its extraction is attempted, and
/// a name with no match is a fatal error.
pub fn extract_required_attributes(input: &str, required_attrs: Option<Vec<&str>>) -> (r: Result<
    (String, String),
    ExtendError,
>)
    ensures
        match extract_list(input@, names_of(opt_names(required_attrs))) {
            Ok((rem, flds)) => r matches Ok(p) && p.0@ == rem && p.1@ == flds,
            Err(e) => r matches Err(x) && err_corresponds(e, x),
        },
{
    match required_attrs {
        None => Ok((input.to_owned(), String::new())),
        Some(v) => {
            proof {
                assert(v.deep_view().skip(0) =~= v.deep_view());
            }
            extract_from(input, &v, 0)
        },
    }
}

/// Splits `input` around its first `fields(...)` group into the text before
/// `fields(`, the group interior, and the text after the matching closing
/// parenthesis, so that
/// `prefix + "fields(" + interior + ")" + suffix` reassembles `input`
/// exactly. Fails with `MalformedNesting` exactly when the group's opening
/// parenthesis has no matching closing one.
pub fn extract_fields(input: &str) -> (r: Result<(String, String, String), ExtendError>)
    requires
        has_fields_open(input@),
    ensures
        exists|i: int| is_first_occurrence(input@, fields_open(), i),
        match r {
            Ok(parts) => {
                &&& is_first_occurrence(input@, fields_open(), parts.0@.len() as int)
                &&& is_group_close(
                    input@.skip(parts.0@.len() + fields_open().len() as int),
                    parts.1@.len() as int,
                )
                &&& input@ == parts.0@ + fields_open() + parts.1@ + close_paren() + parts.2@
            },
            Err(e) => {
                &&& e is MalformedNesting
                &&& forall|i: int|
                    is_first_occurrence(input@, fields_open(), i) ==> !has_group_close(
                        input@.skip(i + fields_open().len()),
                    )
            },
        },
{
    let slen = input.unicode_len();
    match find_first(input, "fields(") {
        None => {
            proof {
                let w = choose|i: int| occurs_at(input@, fields_open(), i);
                assert(!occurs_at(input@, "fields("@, w));
                assert(false);
            }
            Err(ExtendError::MalformedNesting)
        },
        Some(i) => {
            let plen = "fields(".unicode_len();
            let left = input.substring_char(0, i);
            let rest = input.substring_char(i + plen, slen);
            proof {
                assert(input@.skip(i + plen) =~= rest@);
            }
            match find_group_close(rest) {
                None => {
                    proof {
                        assert forall|i2: int|
                            is_first_occurrence(input@, fields_open(), i2) implies !has_group_close(
                            input@.skip(i2 + fields_open().len()),
                        ) by {
                            crate::model::lemma_first_occurrence_unique(
                                input@,
                                fields_open(),
                                i as int,
                                i2,
                            );
                        }
                    }
                    Err(ExtendError::MalformedNesting)
                },
                Some(j) => {
                    let rlen = rest.unicode_len();
                    let interior = rest.substring_char(0, j);
                    let suffix = rest.substring_char(j + 1, rlen);
                    let parts = (left.to_owned(), interior.to_owned(), suffix.to_owned());
                    proof {
                        reveal_strlit(")");
                        assert(close_paren().len() == 1 && close_paren()[0] == ')');
                        assert(rest@[j as int] == ')');
                        assert(input@ =~= parts.0@ + fields_open() + parts.1@ + close_paren()
                            + parts.2@);
                    }
                    Ok(parts)
                },
            }
        },
    }
}

/// Does `s` hold a `fields(` opening anywhere?
fn contains_fields_open(s: &str) -> (r: bool)
    ensures
        r == has_fields_open(s@),
{
    match find_first(s, "fields(") {
        Some(i) => {
            proof {
                assert(occurs_at(s@, fields_open(), i as int));
            }
            true
        },
        None => false,
    }
}

/// Merges `extra_fields` and any relocated required attributes into the
/// `fields(...)` group of `input`, creating the group when `input` lacks one.
/// An empty input yields `fields(extra_fields)` and admits no required
/// attributes; an input with a group keeps its surrounding text in place; an
/// input without one is placed, required attributes removed, before the new
/// group. Fields are joined with `", "` written only between two non-empty
/// lists. The result for every input, and each error with the inputs on
/// which it comes, is fixed by `merge_spec`.
pub fn extend_fields(input: &str, extra_fields: &str, required_attrs: Option<Vec<&str>>) -> (r:
    Result<String, ExtendError>)
    ensures
        match merge_spec(input@, extra_fields@, opt_names(required_attrs)) {
            Ok(out) => r matches Ok(t) && t@ == out,
            Err(e) => r matches Err(x) && err_corresponds(e, x),
        },
{
    if input.is_empty() {
        let has_names = match &required_attrs {
            Some(v) => v.len() > 0,
            None => false,
        };
        if has_names {
            return Err(ExtendError::RequiredOnEmpty);
        }
        let mut out = "fields(".to_owned();
        out.append(extra_fields);
        out.append(")");
        return Ok(out);
    }
    let had_group = contains_fields_open(input);
    match extract_required_attributes(input, required_attrs) {
        Err(e) => Err(e),
        Ok((rem, flds)) => {
            if had_group {
                if !contains_fields_open(rem.as_str()) {
                    return Err(ExtendError::MalformedNesting);
                }
                match extract_fields(rem.as_str()) {
                    Err(e) => {
                        proof {
                            let i0 = first_fields_open(rem@);
                            assert(is_first_occurrence(rem@, fields_open(), i0));
                            assert(!has_group_close(rem@.skip(i0 + fields_open().len())));
                        }
                        Err(e)
                    },
                    Ok(parts) => {
                        proof {
                            let i0 = first_fields_open(rem@);
                            crate::model::lemma_first_occurrence_unique(
                                rem@,
                                fields_open(),
                                i0,
                                parts.0@.len() as int,
                            );
                            let rest = rem@.skip(i0 + fields_open().len() as int);
                            assert(has_group_close(rest)) by {
                                assert(close_at(rest, parts.1@.len() as int));
                            }
                            let j0 = first_group_close(rest);
                            crate::model::lemma_group_close_unique(
                                rest,
                                j0,
                                parts.1@.len() as int,
                            );
                            reveal_strlit(")");
                            assert(rem@.take(i0) =~= parts.0@);
                            assert(rest =~= parts.1@ + close_paren() + parts.2@);
                            assert(rest.take(j0) =~= parts.1@);
                            assert(rest.skip(j0 + 1) =~= parts.2@);
                        }
                        let merged = join_sep(
                            parts.1.as_str(),
                            join_sep(extra_fields, flds.as_str()).as_str(),
                        );
                        let mut out = parts.0;
                        out.append("fields(");
                        out.append(merged.as_str());
                        out.append(")");
                        out.append(parts.2.as_str());
                        Ok(out)
                    },
                }
            } else {
                let mut out: String;
                if rem.as_str().is_empty() {
                    out = String::new();
                    proof {
                        assert(out@ =~= Seq::<char>::empty());
                    }
                } else {
                    out = rem;
                    out.append(", ");
                }
                out.append("fields(");
                let inner = join_sep(extra_fields, flds.as_str());
                out.append(inner.as_str());
                out.append(")");
                Ok(out)
            }
        },
    }
}

} // verus!
