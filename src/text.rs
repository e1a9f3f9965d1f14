use vstd::prelude::*;

verus! {

/// What `str::to_lowercase` returns for a string: Unicode lowercasing.
pub uninterp spec fn lower_of(s: Seq<char>) -> Seq<char>;

/// The title prefix that is stripped before comparison.
pub open spec fn general_prefix() -> Seq<char> {
    seq!['G', 'e', 'n', 'e', 'r', 'a', 'l', ' ']
}

/// `s` without a leading `"General "`, if it has one.
pub open spec fn strip_general(s: Seq<char>) -> Seq<char> {
    if s.len() >= general_prefix().len() && s.subrange(0, general_prefix().len() as int)
        == general_prefix() {
        s.subrange(general_prefix().len() as int, s.len() as int)
    } else {
        s
    }
}

/// `s` with every space character removed.
pub open spec fn remove_spaces(s: Seq<char>) -> Seq<char> {
    s.filter(|c: char| c != ' ')
}

/// The comparison key of a string: prefix stripped, lowercased, spaces removed.
pub open spec fn normalized(s: Seq<char>) -> Seq<char> {
    remove_spaces(lower_of(strip_general(s)))
}

/// Relies on `String::push`: the character is appended at the end.
#[verifier::external_body]
pub(crate) fn push_char(s: &mut String, c: char)
    ensures
        final(s)@ == old(s)@.push(c),
{
    s.push(c)
}

/// Relies on `str::to_lowercase`: the result depends on the characters alone.
#[verifier::external_body]
fn lowercase(s: &str) -> (r: String)
    ensures
        r@ == lower_of(s@),
{
    s.to_lowercase()
}

/// The characters of `s`, in order.
fn chars_of(s: &str) -> (r: Vec<char>)
    ensures
        r@ == s@,
{
    let mut r: Vec<char> = Vec::new();
    for c in it: s.chars()
        invariant
            it.seq() == s@,
            r@ == it.seq().take(it.index() as int),
    {
        r.push(c);
    }
    r
}

/// A string that holds the characters of `v` from index `start` on.
fn string_from(v: &Vec<char>, start: usize) -> (r: String)
    requires
        start <= v.len(),
    ensures
        r@ == v@.subrange(start as int, v.len() as int),
{
    let mut r = String::new();
    let mut i: usize = start;
    while i < v.len()
        invariant
            start <= i <= v.len(),
            r@ == v@.subrange(start as int, i as int),
        decreases v.len() - i,
    {
        push_char(&mut r, v[i]);
        assert(v@.subrange(start as int, i + 1) == v@.subrange(start as int, i as int).push(v@[i as int]));
        i = i + 1;
    }
    r
}

/// Whether `v` begins with `"General "`.
fn starts_with_general(v: &Vec<char>) -> (b: bool)
    ensures
        b == (v@.len() >= general_prefix().len() && v@.subrange(0, general_prefix().len() as int)
            == general_prefix()),
{
    let prefix: [char; 8] = ['G', 'e', 'n', 'e', 'r', 'a', 'l', ' '];
    assert(prefix@ == general_prefix());
    if v.len() < 8 {
        return false;
    }
    let mut i: usize = 0;
    while i < 8
        invariant
            i <= 8 <= v.len(),
            prefix@ == general_prefix(),
            forall|j: int| 0 <= j < i ==> v@[j] == general_prefix()[j],
        decreases 8 - i,
    {
        if v[i] != prefix[i] {
            assert(v@.subrange(0, 8)[i as int] != general_prefix()[i as int]);
            return false;
        }
        i = i + 1;
    }
    assert(v@.subrange(0, 8) == general_prefix());
    true
}

/// `s` without the spaces, built by a pass over its characters.
fn without_spaces(s: &str) -> (r: String)
    ensures
        r@ == remove_spaces(s@),
{
    let v = chars_of(s);
    let mut r = String::new();
    let mut i: usize = 0;
    while i < v.len()
        invariant
            i <= v.len(),
            v@ == s@,
            r@ == remove_spaces(v@.take(i as int)),
        decreases v.len() - i,
    {
        assert(v@.take(i + 1).drop_last() == v@.take(i as int));
        proof {
            reveal(Seq::filter);
        }
        if v[i] != ' ' {
            push_char(&mut r, v[i]);
        }
        i = i + 1;
    }
    assert(v@.take(v.len() as int) == v@);
    r
}

/// Canonical comparison key of a name or of a line of recognized text.
///
/// A leading `"General "` is stripped (exactly that prefix), the rest is
/// lowercased and every space is removed.
pub fn normalize(input: &str) -> (r: String)
    ensures
        r@ == normalized(input@),
{
    let v = chars_of(input);
    let start: usize = if starts_with_general(&v) { 8 } else { 0 };
    let stripped = string_from(&v, start);
    assert(v@.subrange(0, v@.len() as int) == v@);
    let lowered = lowercase(stripped.as_str());
    without_spaces(lowered.as_str())
}

/// A sequence with no space character is left alone by space removal.
pub proof fn lemma_remove_spaces_noop(s: Seq<char>)
    requires
        forall|i: int| 0 <= i < s.len() ==> s[i] != ' ',
    ensures
        remove_spaces(s) == s,
    decreases s.len(),
{
    reveal(Seq::filter);
    if s.len() > 0 {
        lemma_remove_spaces_noop(s.drop_last());
        assert(s.drop_last().push(s.last()) == s);
    }
}

/// A normalized key holds no space.
pub proof fn lemma_normalized_has_no_space(s: Seq<char>)
    ensures
        forall|i: int| 0 <= i < normalized(s).len() ==> normalized(s)[i] != ' ',
{
    let p = |c: char| c != ' ';
    assert forall|i: int| 0 <= i < normalized(s).len() implies normalized(s)[i] != ' ' by {
        lower_of(strip_general(s)).lemma_filter_pred(p, i);
    }
}

/// Normalizing a key again changes nothing wherever lowercasing leaves the
/// key as it is: the prefix cannot match a key without spaces, and no space
/// is left to remove.
pub proof fn lemma_normalize_idempotent_on_lowercase_keys(s: Seq<char>)
    requires
        lower_of(normalized(s)) == normalized(s),
    ensures
        normalized(normalized(s)) == normalized(s),
{
    let k = normalized(s);
    lemma_normalized_has_no_space(s);
    if k.len() >= general_prefix().len() {
        assert(k.subrange(0, general_prefix().len() as int)[7] != general_prefix()[7]);
    }
    assert(strip_general(k) == k);
    lemma_remove_spaces_noop(k);
}

/// The lines `ls` joined with a line break between each two of them.
pub open spec fn join_lines(ls: Seq<Seq<char>>) -> Seq<char>
    decreases ls.len(),
{
    if ls.len() <= 1 {
        if ls.len() == 1 {
            ls[0]
        } else {
            Seq::empty()
        }
    } else {
        join_lines(ls.drop_last()) + seq!['\n'] + ls.last()
    }
}

/// Whether `s` holds no line break.
pub open spec fn single_line(s: Seq<char>) -> bool {
    forall|i: int| 0 <= i < s.len() ==> s[i] != '\n'
}

/// The lines of a recognized text: it is cut at each line break, so that
/// the lines hold no break and, joined again with breaks, give the text back.
/// An empty text is one empty line.
pub fn text_lines(text: &str) -> (r: Vec<String>)
    ensures
        r.len() >= 1,
        join_lines(r@.map_values(|l: String| l@)) == text@,
        forall|j: int| 0 <= j < r.len() ==> single_line(#[trigger] r[j]@),
{
    let v = chars_of(text);
    let mut r: Vec<String> = Vec::new();
    let mut cur = String::new();
    let mut i: usize = 0;
    while i < v.len()
        invariant
            i <= v.len(),
            v@ == text@,
            single_line(cur@),
            forall|j: int| 0 <= j < r.len() ==> single_line(#[trigger] r[j]@),
            join_lines(r@.map_values(|l: String| l@).push(cur@)) == v@.take(i as int),
        decreases v.len() - i,
    {
        let ghost before = r@.map_values(|l: String| l@);
        let c = v[i];
        if c == '\n' {
            let ghost old_cur = cur@;
            r.push(cur);
            cur = String::new();
            proof {
                assert(r@.map_values(|l: String| l@) == before.push(old_cur));
                let ls = before.push(old_cur).push(cur@);
                assert(ls.drop_last() == before.push(old_cur));
                assert(cur@ == Seq::<char>::empty());
                assert(v@.take(i + 1) == v@.take(i as int) + seq!['\n'] + cur@);
            }
        } else {
            let ghost old_cur = cur@;
            push_char(&mut cur, c);
            proof {
                assert(r@.map_values(|l: String| l@) == before);
                let ls0 = before.push(old_cur);
                let ls1 = before.push(cur@);
                assert(v@.take(i + 1) == v@.take(i as int).push(c));
                if before.len() == 0 {
                    assert(ls1[0] == cur@);
                    assert(ls0[0] == old_cur);
                } else {
                    assert(ls0.drop_last() == before);
                    assert(ls1.drop_last() == before);
                    assert(join_lines(ls1) == join_lines(before) + seq!['\n'] + cur@);
                    assert(join_lines(ls0) == join_lines(before) + seq!['\n'] + old_cur);
                }
                assert(join_lines(ls1) == join_lines(ls0).push(c));
            }
        }
        i = i + 1;
    }
    assert(v@.take(v.len() as int) == v@);
    let ghost before = r@.map_values(|l: String| l@);
    let ghost last = cur@;
    r.push(cur);
    assert(r@.map_values(|l: String| l@) == before.push(last));
    r
}


/// The number of characters of `s`.
pub fn char_count(s: &str) -> (n: usize)
    ensures
        n == s@.len(),
{
    chars_of(s).len()
}


/// Appends the characters of `t` to `s`.
pub(crate) fn append_str(s: &mut String, t: &str)
    ensures
        final(s)@ == old(s)@ + t@,
{
    let v = chars_of(t);
    let mut i: usize = 0;
    while i < v.len()
        invariant
            i <= v.len(),
            v@ == t@,
            s@ == old(s)@ + v@.take(i as int),
        decreases v.len() - i,
    {
        push_char(s, v[i]);
        assert(v@.take(i + 1) == v@.take(i as int).push(v@[i as int]));
        i = i + 1;
    }
    assert(v@.take(v.len() as int) == v@);
}

} // verus!
