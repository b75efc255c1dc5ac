use vstd::prelude::*;

verus! {

/// The whitespace characters that `trim` strips from both ends.
pub open spec fn spec_is_ws(c: char) -> bool {
    c == ' ' || c == '\n' || c == '\t' || c == '\r'
}

/// `s` with leading whitespace removed.
pub open spec fn spec_trim_front(s: Seq<char>) -> Seq<char>
    decreases s.len(),
{
    if s.len() > 0 && spec_is_ws(s[0]) {
        spec_trim_front(s.subrange(1, s.len() as int))
    } else {
        s
    }
}

/// `s` with trailing whitespace removed.
pub open spec fn spec_trim_back(s: Seq<char>) -> Seq<char>
    decreases s.len(),
{
    if s.len() > 0 && spec_is_ws(s[s.len() - 1]) {
        spec_trim_back(s.subrange(0, s.len() - 1))
    } else {
        s
    }
}

/// `s` with whitespace removed from both ends.
pub open spec fn spec_trim(s: Seq<char>) -> Seq<char> {
    spec_trim_back(spec_trim_front(s))
}

/// The fields of `s` separated by `sep`, in order.  Splitting the empty
/// sequence yields one empty field, and `n` separators always yield
/// `n + 1` fields, as with splitting on a single character.
pub open spec fn spec_split(s: Seq<char>, sep: char) -> Seq<Seq<char>>
    decreases s.len(),
{
    if s.len() == 0 {
        seq![Seq::<char>::empty()]
    } else if s[0] == sep {
        seq![Seq::<char>::empty()].add(spec_split(s.subrange(1, s.len() as int), sep))
    } else {
        let rest = spec_split(s.subrange(1, s.len() as int), sep);
        seq![seq![s[0]].add(rest[0])].add(rest.subrange(1, rest.len() as int))
    }
}

/// Splitting always yields at least one field.
pub proof fn lemma_split_nonempty(s: Seq<char>, sep: char)
    ensures
        spec_split(s, sep).len() >= 1,
    decreases s.len(),
{
    if s.len() > 0 {
        lemma_split_nonempty(s.subrange(1, s.len() as int), sep);
    }
}

/// Splitting a sequence free of the separator yields that sequence as
/// the single field.
pub proof fn lemma_split_no_sep(s: Seq<char>, sep: char)
    requires
        forall|i: int| 0 <= i < s.len() ==> s[i] != sep,
    ensures
        spec_split(s, sep) =~= seq![s],
    decreases s.len(),
{
    if s.len() == 0 {
        assert(s =~= Seq::<char>::empty());
    } else {
        let s1 = s.subrange(1, s.len() as int);
        lemma_split_no_sep(s1, sep);
        let rest = spec_split(s1, sep);
        assert(rest =~= seq![s1]);
        assert(seq![s[0]].add(rest[0]) =~= s);
        assert(seq![seq![s[0]].add(rest[0])].add(rest.subrange(1, rest.len() as int)) =~= seq![s]);
    }
}

/// Splitting at the first separator: a separator-free prefix `a`
/// followed by `sep` then `b` splits as `a` and then the fields of `b`.
pub proof fn lemma_split_at_sep(a: Seq<char>, b: Seq<char>, sep: char)
    requires
        forall|i: int| 0 <= i < a.len() ==> a[i] != sep,
    ensures
        spec_split(a.add(seq![sep]).add(b), sep) =~= seq![a].add(spec_split(b, sep)),
    decreases a.len(),
{
    let s = a.add(seq![sep]).add(b);
    if a.len() == 0 {
        assert(s[0] == sep);
        assert(s.subrange(1, s.len() as int) =~= b);
        assert(a =~= Seq::<char>::empty());
        assert(seq![Seq::<char>::empty()].add(spec_split(b, sep)) =~= seq![a].add(
            spec_split(b, sep),
        ));
    } else {
        let a1 = a.subrange(1, a.len() as int);
        lemma_split_at_sep(a1, b, sep);
        assert(s.subrange(1, s.len() as int) =~= a1.add(seq![sep]).add(b));
        lemma_split_nonempty(b, sep);
        let rest = spec_split(s.subrange(1, s.len() as int), sep);
        assert(rest =~= seq![a1].add(spec_split(b, sep)));
        assert(rest[0] == a1);
        assert(seq![s[0]].add(rest[0]) =~= a);
        assert(rest.subrange(1, rest.len() as int) =~= spec_split(b, sep));
        assert(seq![seq![s[0]].add(rest[0])].add(rest.subrange(1, rest.len() as int)) =~= seq![
            a,
        ].add(spec_split(b, sep)));
    }
}

/// The decimal digit character for `d` (10 through 15 are never used and
/// fall back to `'9'`).
pub open spec fn spec_digit_char(d: nat) -> char {
    if d == 0 {
        '0'
    } else if d == 1 {
        '1'
    } else if d == 2 {
        '2'
    } else if d == 3 {
        '3'
    } else if d == 4 {
        '4'
    } else if d == 5 {
        '5'
    } else if d == 6 {
        '6'
    } else if d == 7 {
        '7'
    } else if d == 8 {
        '8'
    } else {
        '9'
    }
}

/// The decimal rendering of `n`, most significant digit first.
pub open spec fn spec_decimal(n: nat) -> Seq<char>
    decreases n,
{
    if n < 10 {
        seq![spec_digit_char(n)]
    } else {
        spec_decimal(n / 10).add(seq![spec_digit_char(n % 10)])
    }
}

/// The numeric value of a digit character (unspecified off the digits).
pub open spec fn spec_digit_val(c: char) -> nat {
    if c == '0' {
        0
    } else if c == '1' {
        1
    } else if c == '2' {
        2
    } else if c == '3' {
        3
    } else if c == '4' {
        4
    } else if c == '5' {
        5
    } else if c == '6' {
        6
    } else if c == '7' {
        7
    } else if c == '8' {
        8
    } else {
        9
    }
}

/// Whether `c` is a decimal digit.
pub open spec fn spec_is_digit(c: char) -> bool {
    c == '0' || c == '1' || c == '2' || c == '3' || c == '4' || c == '5' || c == '6' || c == '7'
        || c == '8' || c == '9'
}

/// Whether `s` is one or more decimal digits.
pub open spec fn spec_all_digits(s: Seq<char>) -> bool {
    s.len() >= 1 && forall|i: int| 0 <= i < s.len() ==> spec_is_digit(s[i])
}

/// The value of a digit sequence, most significant digit first.
pub open spec fn spec_digits_val(s: Seq<char>) -> nat
    decreases s.len(),
{
    if s.len() == 0 {
        0
    } else {
        spec_digits_val(s.drop_last()) * 10 + spec_digit_val(s.last())
    }
}

/// The digits of an unsigned decimal: the sequence with an optional
/// leading `'+'` removed.
pub open spec fn spec_u32_body(s: Seq<char>) -> Seq<char> {
    if s.len() > 0 && s[0] == '+' {
        s.subrange(1, s.len() as int)
    } else {
        s
    }
}

/// The unsigned decimal grammar: an optional leading `'+'`, then one or
/// more digits whose value fits in 32 bits.
pub open spec fn spec_parse_u32(s: Seq<char>) -> Option<u32> {
    if spec_all_digits(spec_u32_body(s)) && spec_digits_val(spec_u32_body(s)) <= u32::MAX {
        Some(spec_digits_val(spec_u32_body(s)) as u32)
    } else {
        None
    }
}

/// A rendered decimal is all digits and reads back as its value.
pub proof fn lemma_decimal_digits(n: nat)
    ensures
        spec_all_digits(spec_decimal(n)),
        spec_digits_val(spec_decimal(n)) == n,
        spec_is_digit(spec_decimal(n)[0]),
    decreases n,
{
    if n < 10 {
        assert(spec_decimal(n) =~= seq![spec_digit_char(n)]);
        assert(seq![spec_digit_char(n)].drop_last() =~= Seq::<char>::empty());
        assert(spec_digits_val(Seq::<char>::empty()) == 0);
        assert(spec_digit_val(spec_digit_char(n)) == n);
        assert(spec_digits_val(seq![spec_digit_char(n)]) == n);
    } else {
        lemma_decimal_digits(n / 10);
        let whole = spec_decimal(n);
        let head = spec_decimal(n / 10);
        assert(whole == head.add(seq![spec_digit_char(n % 10)]));
        assert(whole.drop_last() =~= head);
        assert(whole.last() == spec_digit_char(n % 10));
        assert(spec_digit_val(spec_digit_char(n % 10)) == n % 10);
        assert(spec_digits_val(whole) == spec_digits_val(head) * 10 + n % 10);
        assert forall|i: int| 0 <= i < whole.len() implies spec_is_digit(whole[i]) by {
            if i < head.len() {
                assert(whole[i] == head[i]);
            }
        }
    }
}

/// Parsing a rendered 32-bit decimal returns the value.
pub proof fn lemma_decimal_parse(n: u32)
    ensures
        spec_parse_u32(spec_decimal(n as nat)) == Some(n),
{
    lemma_decimal_digits(n as nat);
    let s = spec_decimal(n as nat);
    assert(s[0] != '+');
    assert(spec_u32_body(s) == s);
}

/// The single-character string for digit `d`.
fn digit_str(d: u64) -> (r: &'static str)
    requires
        d < 10,
    ensures
        r@ =~= seq![spec_digit_char(d as nat)],
{
    proof {
        reveal_strlit("0");
        reveal_strlit("1");
        reveal_strlit("2");
        reveal_strlit("3");
        reveal_strlit("4");
        reveal_strlit("5");
        reveal_strlit("6");
        reveal_strlit("7");
        reveal_strlit("8");
        reveal_strlit("9");
    }
    if d == 0 {
        "0"
    } else if d == 1 {
        "1"
    } else if d == 2 {
        "2"
    } else if d == 3 {
        "3"
    } else if d == 4 {
        "4"
    } else if d == 5 {
        "5"
    } else if d == 6 {
        "6"
    } else if d == 7 {
        "7"
    } else if d == 8 {
        "8"
    } else {
        "9"
    }
}

/// The decimal rendering of `n`.
pub fn u64_to_string(n: u64) -> (s: String)
    ensures
        s@ =~= spec_decimal(n as nat),
    decreases n,
{
    if n < 10 {
        String::from_str(digit_str(n))
    } else {
        let mut s = u64_to_string(n / 10);
        s.append(digit_str(n % 10));
        s
    }
}

/// Character-for-character string equality.
pub fn str_eq(a: &str, b: &str) -> (r: bool)
    ensures
        r == (a@ == b@),
{
    let la = a.unicode_len();
    let lb = b.unicode_len();
    if la != lb {
        return false;
    }
    let mut i: usize = 0;
    while i < la
        invariant
            la == a@.len(),
            la == b@.len(),
            0 <= i <= la,
            forall|j: int| 0 <= j < i ==> a@[j] == b@[j],
        decreases la - i,
    {
        if a.get_char(i) != b.get_char(i) {
            return false;
        }
        i = i + 1;
    }
    proof {
        assert(a@ =~= b@);
    }
    true
}

/// `s` with whitespace removed from both ends.
pub fn trim(s: &str) -> (r: String)
    ensures
        r@ == spec_trim(s@),
{
    let len = s.unicode_len();
    proof {
        assert(s@.subrange(0, len as int) =~= s@);
    }
    let mut i: usize = 0;
    while i < len && is_ws_char(s.get_char(i))
        invariant
            len == s@.len(),
            0 <= i <= len,
            spec_trim_front(s@) == spec_trim_front(s@.subrange(i as int, len as int)),
        decreases len - i,
    {
        proof {
            let t = s@.subrange(i as int, len as int);
            assert(t.subrange(1, t.len() as int) =~= s@.subrange(i + 1, len as int));
        }
        i = i + 1;
    }
    proof {
        let t = s@.subrange(i as int, len as int);
        if i < len {
            assert(!spec_is_ws(t[0]));
        }
        assert(spec_trim_front(s@) == t);
    }
    let mut j: usize = len;
    while j > i && is_ws_char(s.get_char(j - 1))
        invariant
            len == s@.len(),
            i <= j <= len,
            spec_trim_front(s@) == s@.subrange(i as int, len as int),
            spec_trim_back(s@.subrange(i as int, len as int)) == spec_trim_back(
                s@.subrange(i as int, j as int),
            ),
        decreases j,
    {
        proof {
            let t = s@.subrange(i as int, j as int);
            assert(t.subrange(0, t.len() - 1) =~= s@.subrange(i as int, j - 1));
        }
        j = j - 1;
    }
    proof {
        let t = s@.subrange(i as int, j as int);
        if j > i {
            assert(!spec_is_ws(t[t.len() - 1]));
        }
        assert(spec_trim(s@) == t);
    }
    String::from_str(s.substring_char(i, j))
}

/// Whether `c` is one of the trimmed whitespace characters.
fn is_ws_char(c: char) -> (r: bool)
    ensures
        r == spec_is_ws(c),
{
    c == ' ' || c == '\n' || c == '\t' || c == '\r'
}

/// The fields of `s` separated by `sep`.
pub fn split_char(s: &str, sep: char) -> (r: Vec<String>)
    ensures
        r.deep_view() =~= spec_split(s@, sep),
{
    let len = s.unicode_len();
    let mut parts: Vec<String> = Vec::new();
    proof {
        assert(s@.subrange(0, len as int) =~= s@);
        assert(parts.deep_view() =~= Seq::<Seq<char>>::empty());
        assert(parts.deep_view().add(spec_split(s@, sep)) =~= spec_split(s@, sep));
    }
    let mut start: usize = 0;
    let mut i: usize = 0;
    while i < len
        invariant
            len == s@.len(),
            0 <= start <= i <= len,
            forall|k: int| start <= k < i ==> s@[k] != sep,
            spec_split(s@, sep) =~= parts.deep_view().add(
                spec_split(s@.subrange(start as int, len as int), sep),
            ),
        decreases len - i,
    {
        if s.get_char(i) == sep {
            let piece = String::from_str(s.substring_char(start, i));
            proof {
                let tail = s@.subrange(start as int, len as int);
                let a = s@.subrange(start as int, i as int);
                let b = s@.subrange(i + 1, len as int);
                assert(tail =~= a.add(seq![sep]).add(b));
                lemma_split_at_sep(a, b, sep);
            }
            parts.push(piece);
            proof {
                assert(parts.deep_view() =~= parts.deep_view().subrange(
                    0,
                    parts.deep_view().len() - 1,
                ).add(seq![s@.subrange(start as int, i as int)]));
            }
            start = i + 1;
        }
        i = i + 1;
    }
    let piece = String::from_str(s.substring_char(start, len));
    proof {
        lemma_split_no_sep(s@.subrange(start as int, len as int), sep);
    }
    parts.push(piece);
    parts
}

/// Parse `s` as an unsigned 32-bit decimal: an optional leading `'+'`,
/// then digits; `None` on any other character or on overflow.
pub fn parse_u32(s: &str) -> (r: Option<u32>)
    ensures
        r == spec_parse_u32(s@),
{
    let len = s.unicode_len();
    let first_plus = len > 0 && s.get_char(0) == '+';
    let begin: usize = if first_plus {
        1
    } else {
        0
    };
    let ghost body = spec_u32_body(s@);
    proof {
        assert(first_plus == (s@.len() > 0 && s@[0] == '+'));
    }
    if begin >= len {
        proof {
            assert(!spec_all_digits(body));
        }
        return None;
    }
    let mut acc: u64 = 0;
    let mut i: usize = begin;
    proof {
        assert(body =~= s@.subrange(begin as int, len as int));
        assert(s@.subrange(begin as int, begin as int) =~= body.subrange(0, 0));
    }
    while i < len
        invariant
            len == s@.len(),
            begin <= i <= len,
            begin < len,
            body == spec_u32_body(s@),
            body == s@.subrange(begin as int, len as int),
            forall|k: int| begin <= k < i ==> spec_is_digit(s@[k]),
            spec_digits_val(body.subrange(0, i - begin)) <= u32::MAX ==> acc == spec_digits_val(
                body.subrange(0, i - begin),
            ),
            spec_digits_val(body.subrange(0, i - begin)) > u32::MAX ==> acc == 0x1_0000_0000u64,
            acc <= 0x1_0000_0000u64,
        decreases len - i,
    {
        let c = s.get_char(i);
        let d: u64 = digit_of(c);
        if d >= 10 {
            proof {
                assert(!spec_is_digit(c));
                assert(0 <= i - begin < body.len());
                assert(body[i - begin] == s@[i as int]);
                assert(!spec_all_digits(body));
                assert(spec_parse_u32(s@) is None);
            }
            return None;
        }
        proof {
            let p = body.subrange(0, i - begin);
            let p1 = body.subrange(0, i + 1 - begin);
            assert(p1.drop_last() =~= p);
            assert(p1.last() == s@[i as int]);
        }
        let wide: u64 = acc * 10 + d;
        acc = if wide > 0xFFFF_FFFFu64 {
            0x1_0000_0000u64
        } else {
            wide
        };
        i = i + 1;
    }
    proof {
        assert(body.subrange(0, len - begin) =~= body);
        assert(spec_all_digits(body));
    }
    if acc > 0xFFFF_FFFFu64 {
        None
    } else {
        Some(acc as u32)
    }
}

/// The numeric value of a digit character, or 10 for anything else.
fn digit_of(c: char) -> (d: u64)
    ensures
        spec_is_digit(c) ==> d == spec_digit_val(c) && d < 10,
        !spec_is_digit(c) ==> d == 10,
{
    if c == '0' {
        0
    } else if c == '1' {
        1
    } else if c == '2' {
        2
    } else if c == '3' {
        3
    } else if c == '4' {
        4
    } else if c == '5' {
        5
    } else if c == '6' {
        6
    } else if c == '7' {
        7
    } else if c == '8' {
        8
    } else if c == '9' {
        9
    } else {
        10
    }
}

} // verus!
