//! The general properties of the merge, stated and proved once over the
//! model: separator placement, and the fatal-error guarantees of the
//! required-attribute extraction.

use vstd::prelude::*;

use crate::model::{
    attr_match_at, ends_with_sep, extract_list, extract_one, extracted_field, extracted_rem,
    first_attr_match, has_attr_match, is_first_attr_match, join2, lemma_first_attr_match_exists,
    lemma_value_end_bounds, listed_fields, merge_spec, renamed_lead, sep, starts_with_sep,
    supported_name, value_char, value_end, MergeErr,
};

verus! {

/// A separator is written only between two non-empty field lists: when
/// neither list begins or ends with `", "`, their join does not either.
pub proof fn lemma_join_no_stray_separator(a: Seq<char>, b: Seq<char>)
    requires
        !starts_with_sep(a),
        !ends_with_sep(a),
        !starts_with_sep(b),
        !ends_with_sep(b),
    ensures
        !starts_with_sep(join2(a, b)),
        !ends_with_sep(join2(a, b)),
{
    reveal_strlit(", ");
    if a.len() > 0 && b.len() > 0 {
        let j = a + sep() + b;
        let n = j.len() as int;
        if j.subrange(0, 2) == sep() {
            if a.len() >= 2 {
                assert(a.subrange(0, 2) =~= j.subrange(0, 2));
            } else {
                assert(j.subrange(0, 2)[1] == sep()[0]);
            }
            assert(false);
        }
        if j.subrange(n - 2, n) == sep() {
            if b.len() >= 2 {
                assert(b.subrange(b.len() - 2, b.len() as int) =~= j.subrange(n - 2, n));
            } else {
                assert(j.subrange(n - 2, n)[0] == sep()[1]);
            }
            assert(false);
        }
    }
}

/// A relocated field is never empty and never begins or ends with `", "`:
/// its renamed key opens it and a value character closes it.
pub proof fn lemma_extracted_field_clean(s: Seq<char>)
    requires
        extract_one(s) is Some,
    ensures
        extracted_field(s).len() > 0,
        !starts_with_sep(extracted_field(s)),
        !ends_with_sep(extracted_field(s)),
{
    reveal_strlit("service.name = ");
    reveal_strlit(", ");
    let w = choose|i: int| attr_match_at(s, i);
    lemma_first_attr_match_exists(s, w);
    let i = first_attr_match(s);
    assert(is_first_attr_match(s, i));
    let v0 = i + supported_name().len() + 3;
    assert(value_char(s[v0]));
    lemma_value_end_bounds(s, v0 + 1);
    let ve = value_end(s, v0 as int);
    assert(ve == value_end(s, v0 + 1));
    assert(ve > v0);
    let fld = renamed_lead() + s.subrange(v0 as int, ve);
    let n = fld.len() as int;
    assert(fld[n - 1] == s[ve - 1]);
    assert(value_char(s[ve - 1]));
    if fld.subrange(0, 2) == sep() {
        assert(fld[0] == 's');
        assert(fld.subrange(0, 2)[0] == fld[0]);
        assert(sep()[0] == ',');
        assert(false);
    }
    if fld.subrange(n - 2, n) == sep() {
        assert(fld[n - 1] == sep()[1]);
        assert(false);
    }
}

/// The joined relocated fields of a successful extraction never begin or end
/// with `", "`.
pub proof fn lemma_extract_list_clean(s: Seq<char>, names: Seq<Seq<char>>)
    requires
        extract_list(s, names) is Ok,
    ensures
        !starts_with_sep(listed_fields(s, names)),
        !ends_with_sep(listed_fields(s, names)),
    decreases names.len(),
{
    reveal_strlit(", ");
    if names.len() > 0 {
        lemma_extracted_field_clean(s);
        let rem = extracted_rem(s);
        let fld = extracted_field(s);
        lemma_extract_list_clean(rem, names.drop_first());
        lemma_join_no_stray_separator(fld, listed_fields(rem, names.drop_first()));
    }
}

/// Separator idempotence: the interior the merge writes between `fields(`
/// and `)` — the existing interior, then the extra fields, then the
/// relocated fields — neither begins nor ends with `", "`, provided the
/// existing interior and the extra fields do not themselves.
pub proof fn lemma_no_stray_separators(
    interior: Seq<char>,
    extra: Seq<char>,
    s: Seq<char>,
    names: Seq<Seq<char>>,
)
    requires
        !starts_with_sep(interior),
        !ends_with_sep(interior),
        !starts_with_sep(extra),
        !ends_with_sep(extra),
        extract_list(s, names) is Ok,
    ensures
        !starts_with_sep(join2(extra, listed_fields(s, names))),
        !ends_with_sep(join2(extra, listed_fields(s, names))),
        !starts_with_sep(join2(interior, join2(extra, listed_fields(s, names)))),
        !ends_with_sep(join2(interior, join2(extra, listed_fields(s, names)))),
{
    lemma_extract_list_clean(s, names);
    lemma_join_no_stray_separator(extra, listed_fields(s, names));
    lemma_join_no_stray_separator(interior, join2(extra, listed_fields(s, names)));
}

/// Requesting the one supported name alone relocates exactly the leftmost
/// match: the extraction's remaining text and single field are those of that
/// match.
pub proof fn lemma_single_name_extracts_one(s: Seq<char>)
    requires
        extract_one(s) is Some,
    ensures
        extract_list(s, seq![supported_name()]) is Ok,
        listed_fields(s, seq![supported_name()]) == extracted_field(s),
        (extract_list(s, seq![supported_name()])->Ok_0).0 == extracted_rem(s),
{
    let names = seq![supported_name()];
    assert(names.drop_first() =~= Seq::<Seq<char>>::empty());
    let p = extract_one(s)->0;
    assert(extract_list(p.0, Seq::<Seq<char>>::empty()) == Ok::<(Seq<char>, Seq<char>), MergeErr>(
        (p.0, Seq::<char>::empty()),
    ));
    assert(extract_list(s, names) == Ok::<(Seq<char>, Seq<char>), MergeErr>(
        (p.0, join2(p.1, Seq::<char>::empty())),
    ));
}

/// A relocated field is placed at the very end of the merged interior, after
/// the existing interior and after the extra fields.
pub proof fn lemma_relocated_field_ends_interior(
    interior: Seq<char>,
    extra: Seq<char>,
    s: Seq<char>,
)
    requires
        extract_one(s) is Some,
    ensures
        ({
            let fld = extracted_field(s);
            let merged = join2(interior, join2(extra, fld));
            merged.subrange(merged.len() - fld.len(), merged.len() as int) == fld
        }),
{
    lemma_extracted_field_clean(s);
    let fld = extracted_field(s);
    let t = join2(extra, fld);
    assert(t.subrange(t.len() - fld.len(), t.len() as int) =~= fld);
    let merged = join2(interior, t);
    assert(merged.subrange(merged.len() - fld.len(), merged.len() as int) =~= fld);
}

/// A missing required attribute is fatal: when the supported name is
/// requested first and no `service_name = value` pair occurs in the
/// non-empty input, the whole merge fails with the missing-attribute error
/// and never produces output.
pub proof fn lemma_missing_required_is_fatal(input: Seq<char>, extra: Seq<char>, names: Seq<
    Seq<char>,
>)
    requires
        input.len() > 0,
        names.len() > 0,
        names[0] == supported_name(),
        !has_attr_match(input),
    ensures
        merge_spec(input, extra, Some(names)) == Err::<Seq<char>, MergeErr>(
            MergeErr::Missing { name: supported_name() },
        ),
{
}

/// Requesting required attributes of an empty input is fatal.
pub proof fn lemma_required_on_empty_is_fatal(extra: Seq<char>, names: Seq<Seq<char>>)
    requires
        names.len() > 0,
    ensures
        merge_spec(Seq::empty(), extra, Some(names)) == Err::<Seq<char>, MergeErr>(
            MergeErr::RequiredOnEmpty,
        ),
{
}

/// An unsupported required-attribute name is fatal, and on a non-empty input
/// it is refused before any extraction is attempted, whatever the input
/// holds.
pub proof fn lemma_unsupported_name_is_fatal(input: Seq<char>, extra: Seq<char>, names: Seq<
    Seq<char>,
>)
    requires
        names.len() > 0,
        names[0] != supported_name(),
    ensures
        merge_spec(input, extra, Some(names)) is Err,
        input.len() > 0 ==> merge_spec(input, extra, Some(names)) == Err::<Seq<char>, MergeErr>(
            MergeErr::Unsupported { name: names[0] },
        ),
{
}

} // verus!
