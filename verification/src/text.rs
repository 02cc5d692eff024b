//! Text as a sequence of Unicode scalar values: trimming, splitting and comparing.
use vstd::prelude::*;
use vstd::string::*;

verus! {

/// `String::push` appends the given scalar value to the end of the text and changes nothing else.
pub assume_specification[ String::push ](s: &mut String, ch: char)
    ensures
        final(s)@ == old(s)@.push(ch),
;

/// The texts that a list of strings holds.
pub open spec fn texts(list: Seq<String>) -> Seq<Seq<char>> {
    list.map_values(|s: String| s@)
}

/// The text of an optional string.
pub open spec fn optional_text(value: Option<String>) -> Option<Seq<char>> {
    match value {
        Some(s) => Some(s@),
        None => None,
    }
}

/// The Unicode property `White_Space`.
pub open spec fn white_space(c: char) -> bool {
    ||| '\u{9}' <= c <= '\u{d}'
    ||| c == '\u{20}'
    ||| c == '\u{85}'
    ||| c == '\u{a0}'
    ||| c == '\u{1680}'
    ||| '\u{2000}' <= c <= '\u{200a}'
    ||| c == '\u{2028}'
    ||| c == '\u{2029}'
    ||| c == '\u{202f}'
    ||| c == '\u{205f}'
    ||| c == '\u{3000}'
}

/// `s` without the white space at its start.
pub open spec fn start_trimmed(s: Seq<char>) -> Seq<char>
    decreases s.len(),
{
    if s.len() > 0 && white_space(s[0]) {
        start_trimmed(s.skip(1))
    } else {
        s
    }
}

/// `s` without the white space at its end.
pub open spec fn end_trimmed(s: Seq<char>) -> Seq<char>
    decreases s.len(),
{
    if s.len() > 0 && white_space(s.last()) {
        end_trimmed(s.drop_last())
    } else {
        s
    }
}

/// `s` without the white space at both ends.
pub open spec fn trimmed(s: Seq<char>) -> Seq<char> {
    end_trimmed(start_trimmed(s))
}

/// `s` without every `c` that it starts with.
pub open spec fn without_leading(s: Seq<char>, c: char) -> Seq<char>
    decreases s.len(),
{
    if s.len() > 0 && s[0] == c {
        without_leading(s.skip(1), c)
    } else {
        s
    }
}

/// The index of the first `x` in `s`, or the length of `s` where there is none.
pub open spec fn position<T>(s: Seq<T>, x: T) -> int
    decreases s.len(),
{
    if s.len() == 0 || s[0] == x {
        0
    } else {
        1 + position(s.skip(1), x)
    }
}

/// What stands before and after the first `x` in `s`, where `s` holds one.
pub open spec fn split_pair<T>(s: Seq<T>, x: T) -> Option<(Seq<T>, Seq<T>)> {
    let i = position(s, x);
    if 0 <= i < s.len() {
        Some((s.take(i), s.skip(i + 1)))
    } else {
        None
    }
}

/// The pieces of `s` between its separators `x`: one more than there are separators.
pub open spec fn pieces<T>(s: Seq<T>, x: T) -> Seq<Seq<T>>
    decreases s.len(),
{
    let i = position(s, x);
    if 0 <= i < s.len() {
        seq![s.take(i)] + pieces(s.skip(i + 1), x)
    } else {
        seq![s]
    }
}

/// The list of texts in one, with `sep` between neighbours.
pub open spec fn joined_text(list: Seq<Seq<char>>, sep: Seq<char>) -> Seq<char>
    decreases list.len(),
{
    if list.len() == 0 {
        Seq::empty()
    } else if list.len() == 1 {
        list[0]
    } else {
        joined_text(list.drop_last(), sep) + sep + list.last()
    }
}

/// The lower-case letter for an ASCII upper-case letter, every other scalar value as it is.
pub open spec fn lower(c: char) -> char {
    if 'A' <= c <= 'Z' {
        ((c as u8) + 32) as u8 as char
    } else {
        c
    }
}

/// `s` with its ASCII letters in lower case.
pub open spec fn lowered(s: Seq<char>) -> Seq<char> {
    s.map_values(|c: char| lower(c))
}

/// A number in decimal digits.
pub open spec fn decimal(n: nat) -> Seq<char>
    decreases n,
{
    let digit = (48 + n % 10) as u8 as char;
    if n < 10 {
        seq![digit]
    } else {
        decimal(n / 10).push(digit)
    }
}

/// Where [`position`] lies and what stands there.
pub proof fn lemma_position<T>(s: Seq<T>, x: T)
    ensures
        0 <= position(s, x) <= s.len(),
        position(s, x) < s.len() ==> s[position(s, x)] == x,
        forall|j: int| 0 <= j < position(s, x) ==> s[j] != x,
    decreases s.len(),
{
    if s.len() > 0 && s[0] != x {
        lemma_position(s.skip(1), x);
        assert forall|j: int| 0 <= j < position(s, x) implies s[j] != x by {
            if j > 0 {
                assert(s[j] == s.skip(1)[j - 1]);
            }
        }
    }
}

/// Only one index is [`position`].
pub proof fn lemma_position_is<T>(s: Seq<T>, x: T, i: int)
    requires
        0 <= i <= s.len(),
        i < s.len() ==> s[i] == x,
        forall|j: int| 0 <= j < i ==> s[j] != x,
    ensures
        position(s, x) == i,
{
    lemma_position(s, x);
}

/// Whether `c` has the Unicode property `White_Space`.
pub fn is_white_space(c: char) -> (r: bool)
    ensures
        r == white_space(c),
{
    ('\u{9}' <= c && c <= '\u{d}') || c == '\u{20}' || c == '\u{85}' || c == '\u{a0}' || c == '\u{1680}'
        || ('\u{2000}' <= c && c <= '\u{200a}') || c == '\u{2028}' || c == '\u{2029}' || c == '\u{202f}'
        || c == '\u{205f}' || c == '\u{3000}'
}

/// Whether two texts are the same.
pub fn same(a: &str, b: &str) -> (r: bool)
    ensures
        r == (a@ == b@),
{
    a.to_string() == b.to_string()
}

/// `s` without the white space at both ends.
pub fn trim<'a>(s: &'a str) -> (r: &'a str)
    ensures
        r@ == trimmed(s@),
{
    let n: usize = s.unicode_len();
    let mut a: usize = 0;
    assert(s@.skip(0) =~= s@);
    while a < n && is_white_space(s.get_char(a))
        invariant
            a <= n == s@.len(),
            start_trimmed(s@) == start_trimmed(s@.skip(a as int)),
        decreases n - a,
    {
        assert(s@.skip(a as int).skip(1) =~= s@.skip(a + 1));
        a = a + 1;
    }
    let ghost rest = s@.skip(a as int);
    let mut b: usize = n;
    assert(rest =~= s@.subrange(a as int, b as int));
    while a < b && is_white_space(s.get_char(b - 1))
        invariant
            a <= b <= n == s@.len(),
            end_trimmed(rest) == end_trimmed(s@.subrange(a as int, b as int)),
        decreases b,
    {
        assert(s@.subrange(a as int, b as int).drop_last() =~= s@.subrange(a as int, b - 1));
        b = b - 1;
    }
    s.substring_char(a, b)
}

/// `s` without every `c` that it starts with.
pub fn trim_start_matches<'a>(s: &'a str, c: char) -> (r: &'a str)
    ensures
        r@ == without_leading(s@, c),
{
    let n: usize = s.unicode_len();
    let mut a: usize = 0;
    assert(s@.skip(0) =~= s@);
    while a < n && s.get_char(a) == c
        invariant
            a <= n == s@.len(),
            without_leading(s@, c) == without_leading(s@.skip(a as int), c),
        decreases n - a,
    {
        assert(s@.skip(a as int).skip(1) =~= s@.skip(a + 1));
        a = a + 1;
    }
    assert(s@.skip(a as int) =~= s@.subrange(a as int, n as int));
    s.substring_char(a, n)
}

/// What stands before and after the first `c` in `s`, where `s` holds one.
pub fn split_once<'a>(s: &'a str, c: char) -> (r: Option<(&'a str, &'a str)>)
    ensures
        match r {
            Some((left, right)) => split_pair(s@, c) == Some((left@, right@)),
            None => split_pair(s@, c) is None,
        },
{
    let n: usize = s.unicode_len();
    let mut i: usize = 0;
    while i < n
        invariant
            i <= n == s@.len(),
            forall|j: int| 0 <= j < i ==> s@[j] != c,
        decreases n - i,
    {
        if s.get_char(i) == c {
            proof {
                lemma_position_is(s@, c, i as int);
            }
            assert(s@.subrange(0, i as int) =~= s@.take(i as int));
            assert(s@.subrange(i + 1, n as int) =~= s@.skip(i + 1));
            return Some((s.substring_char(0, i), s.substring_char(i + 1, n)));
        }
        i = i + 1;
    }
    proof {
        lemma_position_is(s@, c, n as int);
    }
    None
}

/// The pieces of `s` between its separators `c`.
pub fn split(s: &str, c: char) -> (r: Vec<String>)
    ensures
        texts(r@) == pieces(s@, c),
{
    let n: usize = s.unicode_len();
    let mut parts: Vec<String> = Vec::new();
    let mut start: usize = 0;
    let mut i: usize = 0;
    assert(s@.skip(0) =~= s@);
    assert(texts(parts@) + pieces(s@, c) =~= pieces(s@, c));
    while i < n
        invariant
            start <= i <= n == s@.len(),
            forall|j: int| start <= j < i ==> s@[j] != c,
            pieces(s@, c) == texts(parts@) + pieces(s@.skip(start as int), c),
        decreases n - i,
    {
        if s.get_char(i) == c {
            let ghost rest = s@.skip(start as int);
            let ghost before = texts(parts@);
            proof {
                lemma_position_is(rest, c, i - start);
                assert(rest.take(i - start) =~= s@.subrange(start as int, i as int));
                assert(rest.skip(i - start + 1) =~= s@.skip(i + 1));
            }
            parts.push(s.substring_char(start, i).to_string());
            assert(texts(parts@) =~= before.push(s@.subrange(start as int, i as int)));
            assert(texts(parts@) + pieces(s@.skip(i + 1), c) =~= before + pieces(rest, c));
            start = i + 1;
        }
        i = i + 1;
    }
    let ghost rest = s@.skip(start as int);
    let ghost before = texts(parts@);
    proof {
        lemma_position_is(rest, c, rest.len() as int);
        assert(rest =~= s@.subrange(start as int, n as int));
    }
    parts.push(s.substring_char(start, n).to_string());
    assert(texts(parts@) =~= before + seq![rest]);
    parts
}

/// The list of texts in one, with `sep` between neighbours.
pub fn join_texts(list: &Vec<String>, sep: &str) -> (r: String)
    ensures
        r@ == joined_text(texts(list@), sep@),
{
    let mut r: String = String::new();
    let mut i: usize = 0;
    let ghost all = texts(list@);
    assert(all.take(0) =~= Seq::empty());
    while i < list.len()
        invariant
            i <= list.len(),
            all == texts(list@),
            r@ == joined_text(all.take(i as int), sep@),
        decreases list.len() - i,
    {
        assert(all.take(i + 1).drop_last() =~= all.take(i as int));
        if i > 0 {
            r.append(sep);
        }
        r.append(list[i].as_str());
        i = i + 1;
        proof {
            if i == 1 {
                assert(r@ =~= all[0]);
            }
        }
    }
    assert(all.take(i as int) =~= all);
    r
}

/// `s` with its ASCII letters in lower case.
pub fn to_ascii_lowercase(s: &str) -> (r: String)
    ensures
        r@ == lowered(s@),
{
    let n: usize = s.unicode_len();
    let mut r: String = String::new();
    let mut i: usize = 0;
    while i < n
        invariant
            i <= n == s@.len(),
            r@ == lowered(s@.take(i as int)),
        decreases n - i,
    {
        let c = s.get_char(i);
        let l = if 'A' <= c && c <= 'Z' {
            (c as u8 + 32) as char
        } else {
            c
        };
        r.push(l);
        i = i + 1;
        assert(r@ =~= lowered(s@.take(i as int)));
    }
    assert(s@.take(i as int) =~= s@);
    r
}

/// Whether two texts differ at most in the case of their ASCII letters.
pub fn eq_ignore_ascii_case(a: &str, b: &str) -> (r: bool)
    ensures
        r == (lowered(a@) == lowered(b@)),
{
    to_ascii_lowercase(a) == to_ascii_lowercase(b)
}

/// Whether `s` starts with `prefix`.
pub fn starts_with(s: &str, prefix: &str) -> (r: bool)
    ensures
        r == prefix@.is_prefix_of(s@),
{
    let n: usize = prefix.unicode_len();
    if s.unicode_len() < n {
        return false;
    }
    assert(s@.subrange(0, n as int) =~= prefix@ <==> prefix@.is_prefix_of(s@));
    same(s.substring_char(0, n), prefix)
}

/// A number in decimal digits.
pub fn decimal_text(n: u128) -> (r: String)
    ensures
        r@ == decimal(n as nat),
    decreases n,
{
    let digit: u8 = 48 + (n % 10) as u8;
    let mut text = if n < 10 {
        String::new()
    } else {
        decimal_text(n / 10)
    };
    text.push(digit as char);
    assert(n < 10 ==> text@ =~= seq![digit as char]);
    text
}

/// Where a list is read item by item and the first error counts, an error of the first items is the
/// error of all.
pub proof fn lemma_error_stays<T>(read: spec_fn(Seq<Seq<char>>) -> Result<T, Seq<char>>, items: Seq<Seq<char>>, n: int)
    requires
        0 <= n <= items.len(),
        read(items.take(n)) is Err,
        forall|s: Seq<Seq<char>>|
            s.len() > 0 && (#[trigger] read(s.drop_last())) is Err ==> read(s) == read(s.drop_last()),
    ensures
        read(items) == read(items.take(n)),
    decreases items.len() - n,
{
    if n == items.len() {
        assert(items.take(n) =~= items);
    } else {
        let more = items.take(n + 1);
        assert(more.drop_last() =~= items.take(n));
        assert(read(more.drop_last()) is Err);
        lemma_error_stays(read, items, n + 1);
    }
}

/// White space is what Unicode calls so.
pub proof fn law_white_space_is_that_of_unicode(c: char)
    ensures
        white_space(c) <==> {
            let n = c as u32;
            ||| 9 <= n <= 13
            ||| n == 0x20 || n == 0x85 || n == 0xa0 || n == 0x1680
            ||| 0x2000 <= n <= 0x200a
            ||| n == 0x2028 || n == 0x2029 || n == 0x202f || n == 0x205f || n == 0x3000
        },
{
}

/// Trimming at the start takes white space away, and nothing else.
proof fn lemma_start_trimmed(s: Seq<char>)
    ensures
        start_trimmed(s).len() <= s.len(),
        start_trimmed(s) == s.skip(s.len() - start_trimmed(s).len()),
        forall|k: int| 0 <= k < s.len() - start_trimmed(s).len() ==> white_space(#[trigger] s[k]),
        start_trimmed(s).len() > 0 ==> !white_space(start_trimmed(s)[0]),
    decreases s.len(),
{
    if s.len() > 0 && white_space(s[0]) {
        let rest = s.skip(1);
        lemma_start_trimmed(rest);
        let n = rest.len() - start_trimmed(rest).len();
        assert(rest.skip(n) =~= s.skip(n + 1));
        assert forall|k: int| 0 <= k < n + 1 implies white_space(#[trigger] s[k]) by {
            if k > 0 {
                assert(rest[k - 1] == s[k]);
            }
        }
    } else {
        assert(s.skip(0) =~= s);
    }
}

/// Trimming at the end takes white space away, and nothing else.
proof fn lemma_end_trimmed(s: Seq<char>)
    ensures
        end_trimmed(s).len() <= s.len(),
        end_trimmed(s) == s.take(end_trimmed(s).len() as int),
        forall|k: int| end_trimmed(s).len() <= k < s.len() ==> white_space(#[trigger] s[k]),
        end_trimmed(s).len() > 0 ==> !white_space(end_trimmed(s).last()),
    decreases s.len(),
{
    if s.len() > 0 && white_space(s.last()) {
        let rest = s.drop_last();
        lemma_end_trimmed(rest);
        let n = end_trimmed(rest).len() as int;
        assert(rest.take(n) =~= s.take(n));
        assert forall|k: int| n <= k < s.len() implies white_space(#[trigger] s[k]) by {
            if k < rest.len() {
                assert(rest[k] == s[k]);
            }
        }
    } else {
        assert(s.take(s.len() as int) =~= s);
    }
}

/// Trimming takes the white space at both ends away and leaves the rest as it is: `trimmed(s)` is the part
/// of `s` from `i` to `j`, only white space stands outside, and it neither begins nor ends with any.
pub proof fn law_trimming_takes_white_space_only(s: Seq<char>)
    ensures
        exists|i: int, j: int|
            #![trigger s.subrange(i, j)]
            0 <= i <= j <= s.len() && trimmed(s) == s.subrange(i, j) && (forall|k: int|
                0 <= k < i ==> white_space(#[trigger] s[k])) && (forall|k: int|
                j <= k < s.len() ==> white_space(#[trigger] s[k])),
        trimmed(s).len() > 0 ==> !white_space(trimmed(s)[0]) && !white_space(trimmed(s).last()),
{
    let t = start_trimmed(s);
    lemma_start_trimmed(s);
    lemma_end_trimmed(t);
    let i = s.len() - t.len();
    let j = i + trimmed(s).len();
    assert(trimmed(s) =~= s.subrange(i, j));
    assert forall|k: int| j <= k < s.len() implies white_space(#[trigger] s[k]) by {
        assert(t[k - i] == s[k]);
    }
    if trimmed(s).len() > 0 {
        assert(trimmed(s)[0] == t[0]);
    }
}

/// What is left without a leading scalar value is the end of the text that does not begin with it, after
/// nothing but that scalar value.
pub proof fn law_leading_is_taken_away(s: Seq<char>, c: char)
    ensures
        ({
            let rest = without_leading(s, c);
            let n = s.len() - rest.len();
            &&& n >= 0 && rest == s.skip(n)
            &&& forall|k: int| 0 <= k < n ==> #[trigger] s[k] == c
            &&& rest.len() > 0 ==> rest[0] != c
        }),
    decreases s.len(),
{
    if s.len() > 0 && s[0] == c {
        let rest = s.skip(1);
        law_leading_is_taken_away(rest, c);
        let n = rest.len() - without_leading(rest, c).len();
        assert(rest.skip(n) =~= s.skip(n + 1));
        assert forall|k: int| 0 <= k < n + 1 implies #[trigger] s[k] == c by {
            if k > 0 {
                assert(rest[k - 1] == s[k]);
            }
        }
    } else {
        assert(s.skip(0) =~= s);
    }
}

/// A text is split in two at the first separator, where it has one.
pub proof fn law_pairs_are_split_at_the_first<T>(s: Seq<T>, x: T)
    ensures
        split_pair(s, x) is Some <==> s.contains(x),
        split_pair(s, x) matches Some((a, b)) ==> s == a + seq![x] + b && !a.contains(x),
{
    lemma_position(s, x);
    if let Some((a, b)) = split_pair(s, x) {
        let i = position(s, x);
        assert(s =~= a + seq![x] + b);
        assert forall|k: int| 0 <= k < a.len() implies a[k] != x by {
            assert(a[k] == s[k]);
        }
    }
}

/// Pieces with the separator between them.
pub open spec fn glued<T>(list: Seq<Seq<T>>, x: T) -> Seq<T>
    decreases list.len(),
{
    if list.len() <= 1 {
        list[0]
    } else {
        list[0] + seq![x] + glued(list.skip(1), x)
    }
}

/// The pieces of a text hold no separator, and with the separator between them they are the text.
pub proof fn law_pieces_are_what_stands_between<T>(s: Seq<T>, x: T)
    ensures
        pieces(s, x).len() > 0,
        glued(pieces(s, x), x) == s,
        forall|k: int| 0 <= k < pieces(s, x).len() ==> !(#[trigger] pieces(s, x)[k]).contains(x),
    decreases s.len(),
{
    lemma_position(s, x);
    let i = position(s, x);
    let all = pieces(s, x);
    if 0 <= i < s.len() {
        let rest = s.skip(i + 1);
        law_pieces_are_what_stands_between(rest, x);
        assert(all.skip(1) =~= pieces(rest, x));
        assert(s =~= s.take(i) + seq![x] + rest);
        assert forall|k: int| 0 <= k < all.len() implies !(#[trigger] all[k]).contains(x) by {
            if k > 0 {
                assert(all[k] == pieces(rest, x)[k - 1]);
            } else {
                assert forall|m: int| 0 <= m < all[0].len() implies all[0][m] != x by {
                    assert(all[0][m] == s[m]);
                }
            }
        }
    }
}

/// Joined texts stand in their order with the separator between them: one more comes behind all others.
pub proof fn law_joined_texts_keep_their_order(list: Seq<Seq<char>>, sep: Seq<char>, text: Seq<char>)
    ensures
        joined_text(seq![text], sep) == text,
        list.len() > 0 ==> joined_text(list.push(text), sep) == joined_text(list, sep) + sep + text,
        list.len() == 0 ==> joined_text(list, sep).len() == 0,
{
    assert(list.push(text).drop_last() =~= list);
}

/// Lowering changes the ASCII capitals to the letters that they are capitals of, and nothing else.
pub proof fn law_only_capitals_are_lowered(s: Seq<char>, i: int)
    requires
        0 <= i < s.len(),
    ensures
        lowered(s).len() == s.len(),
        0x41 <= s[i] as u32 <= 0x5a ==> lowered(s)[i] as u32 == s[i] as u32 + 0x20,
        !(0x41 <= s[i] as u32 <= 0x5a) ==> lowered(s)[i] == s[i],
{
}

/// The number that decimal digits write.
pub open spec fn number(digits: Seq<char>) -> nat
    decreases digits.len(),
{
    if digits.len() == 0 {
        0
    } else {
        number(digits.drop_last()) * 10 + (digits.last() as u32 - 0x30) as nat
    }
}

/// A number is written with its decimal digits, without leading zeros.
pub proof fn law_decimals_read_back(n: nat)
    ensures
        number(decimal(n)) == n,
        decimal(n).len() > 0,
        forall|i: int| 0 <= i < decimal(n).len() ==> 0x30 <= (#[trigger] decimal(n)[i]) as u32 <= 0x39,
        n > 0 ==> decimal(n)[0] != '0',
    decreases n,
{
    let digit = (48 + n % 10) as u8 as char;
    if n < 10 {
        assert(decimal(n).drop_last() =~= Seq::empty());
        assert(number(Seq::<char>::empty()) == 0);
    } else {
        law_decimals_read_back(n / 10);
        assert(decimal(n).drop_last() =~= decimal(n / 10));
        assert(decimal(n)[0] == decimal(n / 10)[0]);
        assert forall|i: int| 0 <= i < decimal(n).len() implies 0x30 <= (#[trigger] decimal(n)[i]) as u32 <= 0x39 by {
            if i < decimal(n / 10).len() {
                assert(decimal(n)[i] == decimal(n / 10)[i]);
            }
        }
    }
}

} // verus!
