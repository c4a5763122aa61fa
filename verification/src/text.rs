//! Character-level text helpers shared by the parsers and the message builders.
use vstd::prelude::*;

verus! {

/// `String::push` from std: appends one character.
#[verifier::external_body]
pub fn push_char(s: &mut String, c: char)
    ensures
        final(s)@ == old(s)@.push(c),
{
    s.push(c);
}

/// Appends all characters of `t` to `s`.
pub fn push_str(s: &mut String, t: &str)
    ensures
        final(s)@ == old(s)@ + t@,
{
    s.append(t);
}

/// A new `String` holding the characters of `t`.
pub fn string_of(t: &str) -> (r: String)
    ensures
        r@ == t@,
{
    let mut r = String::new();
    push_str(&mut r, t);
    assert(r@ =~= t@);
    r
}

/// Whether two texts hold the same characters.
pub fn text_eq(a: &str, b: &str) -> (r: bool)
    ensures
        r == (a@ == b@),
{
    let n = a.unicode_len();
    if n != b.unicode_len() {
        return false;
    }
    let mut i: usize = 0;
    while i < n
        invariant
            n == a@.len(),
            n == b@.len(),
            i <= n,
            forall|j: int| 0 <= j < i ==> a@[j] == b@[j],
        decreases n - i,
    {
        if a.get_char(i) != b.get_char(i) {
            return false;
        }
        i = i + 1;
    }
    assert(a@ =~= b@);
    true
}

/// `prefix` is a prefix of `s`.
pub open spec fn has_prefix(s: Seq<char>, prefix: Seq<char>) -> bool {
    prefix.len() <= s.len() && s.take(prefix.len() as int) == prefix
}

/// Whether `s` starts with `prefix`.
pub fn starts_with(s: &str, prefix: &str) -> (r: bool)
    ensures
        r == has_prefix(s@, prefix@),
{
    let n = prefix.unicode_len();
    if n > s.unicode_len() {
        return false;
    }
    let mut i: usize = 0;
    while i < n
        invariant
            n == prefix@.len(),
            n <= s@.len(),
            i <= n,
            forall|j: int| 0 <= j < i ==> s@[j] == prefix@[j],
        decreases n - i,
    {
        if s.get_char(i) != prefix.get_char(i) {
            assert(s@.take(n as int)[i as int] != prefix@[i as int]);
            return false;
        }
        i = i + 1;
    }
    assert(s@.take(n as int) =~= prefix@);
    true
}

/// Index of the first occurrence of `sep` in `s`, if any.
pub open spec fn first_index_of(s: Seq<char>, sep: char) -> Option<int>
    decreases s.len(),
{
    if s.len() == 0 {
        None
    } else if s[0] == sep {
        Some(0)
    } else {
        match first_index_of(s.drop_first(), sep) {
            Some(i) => Some(i + 1),
            None => None,
        }
    }
}

/// The fields of `s` separated by `sep`, as `str::split` with a character
/// pattern yields them: `n` separators give `n + 1` fields, empty fields
/// included.
pub open spec fn split_fields(s: Seq<char>, sep: char) -> Seq<Seq<char>>
    decreases s.len(),
{
    match first_index_of(s, sep) {
        Some(i) => if 0 <= i < s.len() {
            seq![s.take(i)] + split_fields(s.skip(i + 1), sep)
        } else {
            seq![s]
        },
        None => seq![s],
    }
}

/// `first_index_of` finds the first separator at or after `start` when none
/// stands before it.
proof fn lemma_first_index_of_skip(s: Seq<char>, sep: char, start: int, i: int)
    requires
        0 <= start <= i < s.len(),
        s[i] == sep,
        forall|j: int| start <= j < i ==> s[j] != sep,
    ensures
        first_index_of(s.skip(start), sep) == Some(i - start),
    decreases i - start,
{
    let t = s.skip(start);
    if i == start {
        assert(t[0] == sep);
    } else {
        assert(t[0] == s[start]);
        assert(t.drop_first() =~= s.skip(start + 1));
        lemma_first_index_of_skip(s, sep, start + 1, i);
    }
}

proof fn lemma_first_index_of_none_skip(s: Seq<char>, sep: char, start: int)
    requires
        0 <= start <= s.len(),
        forall|j: int| start <= j < s.len() ==> s[j] != sep,
    ensures
        first_index_of(s.skip(start), sep) is None,
    decreases s.len() - start,
{
    let t = s.skip(start);
    if start < s.len() {
        assert(t[0] == s[start]);
        assert(t.drop_first() =~= s.skip(start + 1));
        lemma_first_index_of_none_skip(s, sep, start + 1);
    }
}

/// Splitting a text made of a separator-free head, the separator and a tail
/// gives the head followed by the fields of the tail.
pub proof fn lemma_split_fields_head(head: Seq<char>, sep: char, tail: Seq<char>)
    requires
        !head.contains(sep),
    ensures
        split_fields(head + seq![sep] + tail, sep) == seq![head] + split_fields(tail, sep),
{
    let s = head + seq![sep] + tail;
    let i = head.len() as int;
    assert(s[i] == sep);
    assert forall|j: int| 0 <= j < i implies s[j] != sep by {
        assert(s[j] == head[j]);
    }
    lemma_first_index_of_skip(s, sep, 0, i);
    assert(s.skip(0) =~= s);
    assert(s.take(i) =~= head);
    assert(s.skip(i + 1) =~= tail);
}

/// A text without the separator is a single field.
pub proof fn lemma_split_fields_single(s: Seq<char>, sep: char)
    requires
        !s.contains(sep),
    ensures
        split_fields(s, sep) == seq![s],
{
    assert forall|j: int| 0 <= j < s.len() implies s[j] != sep by {
        if s[j] == sep {
            assert(s.contains(sep));
        }
    }
    lemma_first_index_of_none_skip(s, sep, 0);
    assert(s.skip(0) =~= s);
}

/// Splits `s` at every `sep`, as `str::split` with a character pattern does.
pub fn split_text(s: &str, sep: char) -> (fields: Vec<String>)
    ensures
        fields@.len() == split_fields(s@, sep).len(),
        forall|i: int| 0 <= i < fields@.len() ==> #[trigger] fields@[i]@ == split_fields(s@, sep)[i],
{
    let n = s.unicode_len();
    let mut fields: Vec<String> = Vec::new();
    let mut current = String::new();
    let mut start: usize = 0;
    let mut i: usize = 0;
    assert(s@.skip(0) =~= s@);
    while i < n
        invariant
            n == s@.len(),
            start <= i <= n,
            current@ == s@.subrange(start as int, i as int),
            forall|j: int| start <= j < i ==> s@[j] != sep,
            fields@.len() + split_fields(s@.skip(start as int), sep).len() == split_fields(
                s@,
                sep,
            ).len(),
            forall|k: int|
                0 <= k < fields@.len() ==> #[trigger] fields@[k]@ == split_fields(s@, sep)[k],
            forall|k: int|
                0 <= k < split_fields(s@.skip(start as int), sep).len() ==> split_fields(
                    s@.skip(start as int),
                    sep,
                )[k] == split_fields(s@, sep)[fields@.len() + k],
        decreases n - i,
    {
        let c = s.get_char(i);
        if c == sep {
            proof {
                lemma_first_index_of_skip(s@, sep, start as int, i as int);
                let t = s@.skip(start as int);
                assert(t.take(i - start) =~= s@.subrange(start as int, i as int));
                assert(t.skip(i - start + 1) =~= s@.skip(i + 1));
                assert(split_fields(t, sep) == seq![t.take(i - start)] + split_fields(
                    s@.skip(i + 1),
                    sep,
                ));
                assert(split_fields(t, sep)[0] == t.take(i - start));
                assert(forall|k: int|
                    0 <= k < split_fields(s@.skip(i + 1), sep).len() ==> #[trigger] split_fields(
                        s@.skip(i + 1),
                        sep,
                    )[k] == split_fields(t, sep)[k + 1]);
            }
            let ghost old_fields = fields@;
            fields.push(current);
            current = String::new();
            start = i + 1;
            proof {
                assert(current@ =~= s@.subrange(start as int, (i + 1) as int));
                assert forall|k: int|
                    0 <= k < fields@.len() implies #[trigger] fields@[k]@ == split_fields(s@, sep)[k] by {
                    if k < old_fields.len() {
                        assert(fields@[k] == old_fields[k]);
                    }
                }
            }
        } else {
            push_char(&mut current, c);
            proof {
                assert(current@ =~= s@.subrange(start as int, (i + 1) as int));
            }
        }
        i = i + 1;
    }
    proof {
        lemma_first_index_of_none_skip(s@, sep, start as int);
        let t = s@.skip(start as int);
        assert(split_fields(t, sep) == seq![t]);
        assert(t =~= s@.subrange(start as int, n as int));
    }
    let ghost old_fields = fields@;
    fields.push(current);
    proof {
        assert forall|k: int|
            0 <= k < fields@.len() implies #[trigger] fields@[k]@ == split_fields(s@, sep)[k] by {
            if k < old_fields.len() {
                assert(fields@[k] == old_fields[k]);
            } else {
                assert(split_fields(s@.skip(start as int), sep)[0] == split_fields(s@, sep)[k]);
            }
        }
    }
    fields
}

} // verus!
