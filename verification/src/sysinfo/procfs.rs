//! The `key: value` files of the proc file system, and the gathering of numeric
//! fields out of them.
use vstd::prelude::*;
use crate::text::{
    chars_of, contains, contains_chars, lines, lines_chars, parse_uint, parse_uint_chars, pieces_view, split, split_chars,
    trim, trim_chars, IntErrorKind,
};
use crate::sysinfo::error::{
    find_error, find_error_text, int_error_debug, int_error_debug_str, read_error,
    read_error_text, strs_view, Error, InnerError,
};

verus! {

/// The key and the value of one line: the trimmed text before the first `:` and the
/// trimmed text between the first and the second `:` (empty when there is none).
pub open spec fn line_entry(l: Seq<char>) -> (Seq<char>, Seq<char>) {
    let p = split(l, ':');
    (
        trim(p[0]),
        if p.len() > 1 {
            trim(p[1])
        } else {
            Seq::empty()
        },
    )
}

/// The entries of a `key: value` file, one per line, in order.
pub open spec fn entries(content: Seq<char>) -> Seq<(Seq<char>, Seq<char>)> {
    lines(content).map_values(|l: Seq<char>| line_entry(l))
}

/// The view of a list of entries.
pub open spec fn entries_view(v: Seq<(Vec<char>, Vec<char>)>) -> Seq<(Seq<char>, Seq<char>)> {
    v.map_values(|e: (Vec<char>, Vec<char>)| (e.0@, e.1@))
}

/// The value of the last entry with the given key: a later line replaces an earlier
/// one, as inserting into a map does.
pub open spec fn lookup(es: Seq<(Seq<char>, Seq<char>)>, key: Seq<char>) -> Option<Seq<char>>
    decreases es.len(),
{
    if es.len() == 0 {
        None
    } else if es.last().0 == key {
        Some(es.last().1)
    } else {
        lookup(es.drop_last(), key)
    }
}

/// Splits the content of a `key: value` file into its entries.
pub fn key_value_entries(content: &[char]) -> (v: Vec<(Vec<char>, Vec<char>)>)
    ensures
        entries_view(v@) == entries(content@),
{
    let ls = lines_chars(content);
    let mut out: Vec<(Vec<char>, Vec<char>)> = Vec::new();
    let mut i: usize = 0;
    while i < ls.len()
        invariant
            i <= ls@.len(),
            pieces_view(ls@) == lines(content@),
            entries_view(out@) == entries(content@).subrange(0, i as int),
        decreases ls.len() - i,
    {
        let p = split_chars(ls[i].as_slice(), ':');
        let key = trim_chars(p[0].as_slice());
        let value = if p.len() > 1 {
            trim_chars(p[1].as_slice())
        } else {
            Vec::new()
        };
        proof {
            assert(pieces_view(ls@)[i as int] == ls@[i as int]@);
            assert(pieces_view(p@)[0] == p@[0]@);
            if p@.len() > 1 {
                assert(pieces_view(p@)[1] == p@[1]@);
            }
            assert((key@, value@) == entries(content@)[i as int]);
        }
        let ghost before = entries_view(out@);
        out.push((key, value));
        assert(entries_view(out@) =~= before.push((key@, value@)));
        assert(entries(content@).subrange(0, i + 1) =~= entries(content@).subrange(
            0,
            i as int,
        ).push((key@, value@)));
        i = i + 1;
    }
    assert(entries(content@).subrange(0, ls@.len() as int) =~= entries(content@));
    out
}

/// Equality of two character sequences.
pub fn chars_eq(a: &[char], b: &[char]) -> (r: bool)
    ensures
        r == (a@ == b@),
{
    if a.len() != b.len() {
        return false;
    }
    let mut i: usize = 0;
    while i < a.len()
        invariant
            a@.len() == b@.len(),
            i <= a@.len(),
            forall|k: int| 0 <= k < i ==> a@[k] == b@[k],
        decreases a.len() - i,
    {
        if a[i] != b[i] {
            return false;
        }
        i = i + 1;
    }
    assert(a@ =~= b@);
    true
}

/// The value of the last entry with the given key.
pub fn lookup_entry(es: &Vec<(Vec<char>, Vec<char>)>, key: &[char]) -> (r: Option<Vec<char>>)
    ensures
        match r {
            Some(v) => lookup(entries_view(es@), key@) == Some(v@),
            None => lookup(entries_view(es@), key@) is None,
        },
{
    let mut j = es.len();
    assert(es@.subrange(0, es@.len() as int) =~= es@);
    while j > 0
        invariant
            j <= es@.len(),
            lookup(entries_view(es@), key@) == lookup(entries_view(es@.subrange(0, j as int)), key@),
        decreases j,
    {
        let ghost sub = entries_view(es@.subrange(0, j as int));
        assert(sub.last() == (es@[j - 1].0@, es@[j - 1].1@));
        assert(sub.drop_last() =~= entries_view(es@.subrange(0, j - 1)));
        if chars_eq(es[j - 1].0.as_slice(), key) {
            let v = crate::text::slice_to_vec(es[j - 1].1.as_slice(), 0, es[j - 1].1.len());
            return Some(v);
        }
        j = j - 1;
    }
    None
}

/// Outcome of reading one numeric field: absent, or the outcome of its parse.
pub type Field = Option<Result<u64, IntErrorKind>>;

/// The view of a field.
pub open spec fn field_view(f: Field) -> Option<Result<int, IntErrorKind>> {
    match f {
        None => None,
        Some(Ok(v)) => Some(Ok(v as int)),
        Some(Err(e)) => Some(Err(e)),
    }
}

/// The field's parse failed.
pub open spec fn is_failure(f: Option<Result<int, IntErrorKind>>) -> bool {
    f matches Some(Err(_))
}

/// The index of the first field at or after `i` whose parse failed, or -1.
pub open spec fn first_failure(fs: Seq<Option<Result<int, IntErrorKind>>>, i: int) -> int
    decreases fs.len() - i,
{
    if i < 0 || i >= fs.len() {
        -1
    } else if is_failure(fs[i]) {
        i
    } else {
        first_failure(fs, i + 1)
    }
}

/// The keys of the fields that are absent, in order.
pub open spec fn missing_keys(keys: Seq<Seq<char>>, fs: Seq<Option<Result<int, IntErrorKind>>>) -> Seq<
    Seq<char>,
>
    decreases fs.len(),
{
    if fs.len() == 0 {
        Seq::empty()
    } else if fs.last() is None {
        missing_keys(keys.drop_last(), fs.drop_last()).push(keys.last())
    } else {
        missing_keys(keys.drop_last(), fs.drop_last())
    }
}

/// The values of the fields that were parsed, in order.
pub open spec fn field_values(fs: Seq<Option<Result<int, IntErrorKind>>>) -> Seq<int>
    decreases fs.len(),
{
    if fs.len() == 0 {
        Seq::empty()
    } else if fs.last() matches Some(Ok(_)) {
        field_values(fs.drop_last()).push(fs.last()->Some_0->Ok_0)
    } else {
        field_values(fs.drop_last())
    }
}

/// What reading several fields gives: the first failed parse is reported at once as a
/// read error of `name` and the field's `part`; otherwise absent fields are reported
/// together; otherwise the values.
pub open spec fn gathered(
    fs: Seq<Option<Result<int, IntErrorKind>>>,
    keys: Seq<Seq<char>>,
    name: Seq<char>,
    parts: Seq<Seq<char>>,
    file: Seq<char>,
) -> Result<Seq<int>, Seq<char>> {
    let k = first_failure(fs, 0);
    if k >= 0 {
        Err(read_error_text(name, parts[k], int_error_debug(fs[k]->Some_0->Err_0)))
    } else if missing_keys(keys, fs).len() > 0 {
        Err(find_error_text(missing_keys(keys, fs), file))
    } else {
        Ok(field_values(fs))
    }
}

proof fn lemma_first_failure_shift(fs: Seq<Option<Result<int, IntErrorKind>>>, i: int)
    requires
        0 <= i < fs.len(),
        !is_failure(fs[i]),
    ensures
        first_failure(fs, i) == first_failure(fs, i + 1),
{
}

proof fn lemma_first_failure_prefix(
    fs: Seq<Option<Result<int, IntErrorKind>>>,
    n: int,
)
    requires
        0 <= n <= fs.len(),
        forall|j: int| 0 <= j < n ==> !#[trigger] is_failure(fs[j]),
    ensures
        first_failure(fs, 0) == first_failure(fs, n),
    decreases n,
{
    if n > 0 {
        lemma_first_failure_prefix(fs, n - 1);
        lemma_first_failure_shift(fs, n - 1);
    }
}

proof fn lemma_first_failure_none_from(fs: Seq<Option<Result<int, IntErrorKind>>>, i: int)
    requires
        0 <= i <= fs.len(),
        forall|j: int| i <= j < fs.len() ==> !#[trigger] is_failure(fs[j]),
    ensures
        first_failure(fs, i) == -1,
    decreases fs.len() - i,
{
    if i < fs.len() {
        lemma_first_failure_none_from(fs, i + 1);
    }
}

/// Gathers the values of fields, or the error that reading them gives.
pub fn gather_fields(
    fs: &Vec<Field>,
    keys: &Vec<&str>,
    name: &str,
    parts: &Vec<&str>,
    file: &str,
) -> (r: Result<Vec<u64>, Error>)
    requires
        keys@.len() == fs@.len(),
        parts@.len() == fs@.len(),
    ensures
        match r {
            Ok(v) => gathered(
                fs@.map_values(|f: Field| field_view(f)),
                strs_view(keys@),
                name@,
                strs_view(parts@),
                file@,
            ) == Ok::<Seq<int>, Seq<char>>(v@.map_values(|x: u64| x as int)) && v@.len()
                == fs@.len() && forall|j: int|
                0 <= j < fs@.len() ==> fs@[j] == Some(Ok::<u64, IntErrorKind>(#[trigger] v@[j])),
            Err(e) => e matches Error::Internal(InnerError::ReadError(m)) && gathered(
                fs@.map_values(|f: Field| field_view(f)),
                strs_view(keys@),
                name@,
                strs_view(parts@),
                file@,
            ) == Err::<Seq<int>, Seq<char>>(m@),
        },
{
    let ghost fv = fs@.map_values(|f: Field| field_view(f));
    let mut values: Vec<u64> = Vec::new();
    let mut missing: Vec<&str> = Vec::new();
    let mut i: usize = 0;
    while i < fs.len()
        invariant
            i <= fs@.len(),
            keys@.len() == fs@.len(),
            parts@.len() == fs@.len(),
            fv == fs@.map_values(|f: Field| field_view(f)),
            forall|j: int| 0 <= j < i ==> !#[trigger] is_failure(fv[j]),
            strs_view(missing@) == missing_keys(
                strs_view(keys@).subrange(0, i as int),
                fv.subrange(0, i as int),
            ),
            values@.map_values(|x: u64| x as int) == field_values(fv.subrange(0, i as int)),
            missing@.len() == 0 ==> (values@.len() == i && forall|j: int|
                0 <= j < i ==> fs@[j] == Some(Ok::<u64, IntErrorKind>(#[trigger] values@[j]))),
        decreases fs.len() - i,
    {
        let ghost kv = strs_view(keys@).subrange(0, i + 1);
        let ghost fsub = fv.subrange(0, i + 1);
        assert(kv.drop_last() =~= strs_view(keys@).subrange(0, i as int));
        assert(fsub.drop_last() =~= fv.subrange(0, i as int));
        assert(fsub.last() == fv[i as int]);
        assert(kv.last() == keys@[i as int]@);
        match &fs[i] {
            Some(Err(e)) => {
                proof {
                    lemma_first_failure_prefix(fv, i as int);
                    assert(fv[i as int] == Some(Err::<int, IntErrorKind>(*e)));
                }
                return Err(read_error(name, parts[i], int_error_debug_str(*e)));
            },
            Some(Ok(v)) => {
                let ghost vb = values@.map_values(|x: u64| x as int);
                values.push(*v);
                assert(values@.map_values(|x: u64| x as int) =~= vb.push(*v as int));
                assert(field_values(fsub) =~= field_values(fv.subrange(0, i as int)).push(
                    *v as int,
                ));
                let ghost mb = strs_view(missing@);
                assert(strs_view(missing@) =~= mb);
            },
            None => {
                let ghost mb = strs_view(missing@);
                missing.push(keys[i]);
                assert(strs_view(missing@) =~= mb.push(keys@[i as int]@));
                let ghost vb = values@.map_values(|x: u64| x as int);
                assert(field_values(fsub) =~= field_values(fv.subrange(0, i as int)));
            },
        }
        i = i + 1;
    }
    assert(fv.subrange(0, fs@.len() as int) =~= fv);
    assert(strs_view(keys@).subrange(0, fs@.len() as int) =~= strs_view(keys@));
    proof {
        lemma_first_failure_none_from(fv, 0);
    }
    if missing.len() > 0 {
        return Err(find_error(&missing, file));
    }
    Ok(values)
}

/// The index of the first line at or after `from` that contains `pat`, or -1: where
/// `Iterator::find` over the lines stops.
pub open spec fn find_line(ls: Seq<Seq<char>>, pat: Seq<char>, from: int) -> int
    decreases ls.len() - from,
{
    if from < 0 || from >= ls.len() {
        -1
    } else if contains(ls[from], pat) {
        from
    } else {
        find_line(ls, pat, from + 1)
    }
}

proof fn lemma_find_line_bounds(ls: Seq<Seq<char>>, pat: Seq<char>, from: int)
    ensures
        find_line(ls, pat, from) == -1 || (from <= find_line(ls, pat, from) < ls.len()),
    decreases ls.len() - from,
{
    if 0 <= from < ls.len() && !contains(ls[from], pat) {
        lemma_find_line_bounds(ls, pat, from + 1);
    }
}

/// The first line at or after `from` that contains `pat`.
pub fn find_line_from(ls: &Vec<Vec<char>>, pat: &str, from: usize) -> (r: Option<usize>)
    ensures
        match r {
            Some(i) => find_line(pieces_view(ls@), pat@, from as int) == i as int && i
                < ls@.len() && contains(ls@[i as int]@, pat@),
            None => find_line(pieces_view(ls@), pat@, from as int) == -1,
        },
{
    let p = chars_of(pat);
    let mut i = from;
    while i < ls.len()
        invariant
            from <= i,
            p@ == pat@,
            find_line(pieces_view(ls@), pat@, from as int) == find_line(
                pieces_view(ls@),
                pat@,
                i as int,
            ),
        decreases ls.len() - i,
    {
        assert(pieces_view(ls@)[i as int] == ls@[i as int]@);
        if contains_chars(ls[i].as_slice(), p.as_slice()) {
            return Some(i);
        }
        i = i + 1;
    }
    None
}

proof fn lemma_first_failure_none(fs: Seq<Option<Result<int, IntErrorKind>>>, i: int)
    requires
        0 <= i <= fs.len(),
        first_failure(fs, i) < 0,
    ensures
        forall|j: int| i <= j < fs.len() ==> !#[trigger] is_failure(fs[j]),
    decreases fs.len() - i,
{
    if i < fs.len() {
        lemma_first_failure_none(fs, i + 1);
    }
}

proof fn lemma_no_missing(keys: Seq<Seq<char>>, fs: Seq<Option<Result<int, IntErrorKind>>>)
    requires
        missing_keys(keys, fs).len() == 0,
    ensures
        forall|j: int| 0 <= j < fs.len() ==> (#[trigger] fs[j]) is Some,
    decreases fs.len(),
{
    if fs.len() > 0 {
        if fs.last() is None {
            assert(missing_keys(keys, fs).len() > 0);
        }
        lemma_no_missing(keys.drop_last(), fs.drop_last());
        assert forall|j: int| 0 <= j < fs.len() implies (#[trigger] fs[j]) is Some by {
            if j < fs.len() - 1 {
                assert(fs[j] == fs.drop_last()[j]);
            }
        }
    }
}

proof fn lemma_field_values_all(fs: Seq<Option<Result<int, IntErrorKind>>>)
    requires
        forall|j: int| 0 <= j < fs.len() ==> (#[trigger] fs[j]) matches Some(Ok(_)),
    ensures
        field_values(fs).len() == fs.len(),
        forall|j: int|
            0 <= j < fs.len() ==> fs[j] == Some(Ok::<int, IntErrorKind>(#[trigger] field_values(fs)[j])),
    decreases fs.len(),
{
    if fs.len() > 0 {
        let d = fs.drop_last();
        assert forall|j: int| 0 <= j < d.len() implies (#[trigger] d[j]) matches Some(Ok(_)) by {
            assert(d[j] == fs[j]);
        }
        lemma_field_values_all(d);
        assert(fs.last() == fs[fs.len() - 1]);
        assert forall|j: int| 0 <= j < fs.len() implies fs[j] == Some(
            Ok::<int, IntErrorKind>(#[trigger] field_values(fs)[j]),
        ) by {
            if j < fs.len() - 1 {
                assert(d[j] == fs[j]);
            }
        }
    }
}

/// Gathered values are those of the fields, one for each, where every field was found and
/// parsed.
pub proof fn lemma_gathered_values(
    fs: Seq<Option<Result<int, IntErrorKind>>>,
    keys: Seq<Seq<char>>,
    name: Seq<char>,
    parts: Seq<Seq<char>>,
    file: Seq<char>,
)
    ensures
        gathered(fs, keys, name, parts, file) matches Ok(v) ==> v.len() == fs.len() && forall|
            j: int,
        | 0 <= j < fs.len() ==> fs[j] == Some(Ok::<int, IntErrorKind>(#[trigger] v[j])),
{
    if gathered(fs, keys, name, parts, file) is Ok {
        lemma_first_failure_none(fs, 0);
        lemma_no_missing(keys, fs);
        assert forall|j: int| 0 <= j < fs.len() implies (#[trigger] fs[j]) matches Some(Ok(_)) by {
            assert(!is_failure(fs[j]));
        }
        lemma_field_values_all(fs);
    }
}

/// The last entry with `key` is at `j`.
pub open spec fn last_with_key(es: Seq<(Seq<char>, Seq<char>)>, key: Seq<char>, j: int) -> bool {
    &&& 0 <= j < es.len()
    &&& es[j].0 == key
    &&& forall|l: int| j < l < es.len() ==> (#[trigger] es[l]).0 != key
}

/// What is found under a key is the value of the last entry with that key.
pub proof fn lemma_lookup_last(es: Seq<(Seq<char>, Seq<char>)>, key: Seq<char>)
    ensures
        lookup(es, key) matches Some(c) ==> exists|j: int|
            #[trigger] last_with_key(es, key, j) && es[j].1 == c,
    decreases es.len(),
{
    if es.len() > 0 {
        if es.last().0 == key {
            assert(last_with_key(es, key, es.len() - 1));
        } else {
            lemma_lookup_last(es.drop_last(), key);
            if lookup(es, key) is Some {
                let j = choose|j: int| #[trigger] last_with_key(es.drop_last(), key, j)
                    && es.drop_last()[j].1 == lookup(es, key)->Some_0;
                assert(es[j] == es.drop_last()[j]);
                assert forall|l: int| j < l < es.len() implies (#[trigger] es[l]).0 != key by {
                    if l < es.len() - 1 {
                        assert(es[l] == es.drop_last()[l]);
                    }
                }
                assert(last_with_key(es, key, j));
            }
        }
    }
}

/// The line that `find_line` finds holds the pattern.
pub proof fn lemma_find_line_found(ls: Seq<Seq<char>>, pat: Seq<char>, from: int)
    ensures
        find_line(ls, pat, from) >= 0 ==> from <= find_line(ls, pat, from) < ls.len() && contains(
            ls[find_line(ls, pat, from)],
            pat,
        ),
    decreases ls.len() - from,
{
    if 0 <= from < ls.len() && !contains(ls[from], pat) {
        lemma_find_line_found(ls, pat, from + 1);
    }
}

} // verus!
