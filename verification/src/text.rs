use vstd::prelude::*;

verus! {

/// The characters of a string, in order.
pub fn chars_of(s: &str) -> (r: Vec<char>)
    ensures
        r@ == s@,
{
    let mut r: Vec<char> = Vec::new();
    for c in it: s.chars()
        invariant
            r@ == it.seq().take(it.index() as int),
    {
        r.push(c);
    }
    r
}

/// Whether `c` has the Unicode `White_Space` property (as `char::is_whitespace`).
pub open spec fn is_ws(c: char) -> bool {
    let v = c as u32;
    ||| 0x09 <= v <= 0x0d
    ||| v == 0x20
    ||| v == 0x85
    ||| v == 0xa0
    ||| v == 0x1680
    ||| 0x2000 <= v <= 0x200a
    ||| v == 0x2028
    ||| v == 0x2029
    ||| v == 0x202f
    ||| v == 0x205f
    ||| v == 0x3000
}

/// Whether `c` is whitespace.
pub fn is_whitespace(c: char) -> (b: bool)
    ensures
        b == is_ws(c),
{
    let v = c as u32;
    (0x09 <= v && v <= 0x0d) || v == 0x20 || v == 0x85 || v == 0xa0 || v == 0x1680 || (0x2000 <= v
        && v <= 0x200a) || v == 0x2028 || v == 0x2029 || v == 0x202f || v == 0x205f || v == 0x3000
}

/// The maximal runs of non-whitespace characters of `s`, in order (as
/// `str::split_whitespace`).
pub open spec fn words(s: Seq<char>) -> Seq<Seq<char>>
    decreases s.len(),
{
    if s.len() == 0 {
        Seq::empty()
    } else {
        let rest = words(s.drop_last());
        let c = s.last();
        if is_ws(c) {
            rest
        } else if s.len() >= 2 && !is_ws(s[s.len() - 2]) {
            rest.drop_last().push(rest.last().push(c))
        } else {
            rest.push(seq![c])
        }
    }
}

/// The whitespace-separated words of `s`.
pub fn split_words(s: &Vec<char>) -> (r: Vec<Vec<char>>)
    ensures
        r@.map_values(|w: Vec<char>| w@) == words(s@),
{
    let mut done: Vec<Vec<char>> = Vec::new();
    let mut cur: Vec<char> = Vec::new();
    let mut in_word = false;
    let mut i: usize = 0;
    while i < s.len()
        invariant
            i <= s@.len(),
            in_word == (i > 0 && !is_ws(s@[i - 1])),
            in_word ==> words(s@.subrange(0, i as int)) == done@.map_values(|w: Vec<char>| w@).push(cur@),
            !in_word ==> words(s@.subrange(0, i as int)) == done@.map_values(|w: Vec<char>| w@),
        decreases s@.len() - i,
    {
        let c = s[i];
        let ghost pre = s@.subrange(0, i as int);
        let ghost next = s@.subrange(0, i + 1);
        proof {
            assert(next.drop_last() =~= pre);
            assert(next.last() == c);
        }
        if is_whitespace(c) {
            if in_word {
                let w = cur;
                cur = Vec::new();
                proof {
                    assert(done@.map_values(|w: Vec<char>| w@).push(w@) =~= done@.push(w).map_values(
                        |w: Vec<char>| w@,
                    ));
                }
                done.push(w);
            }
            in_word = false;
        } else {
            if in_word {
                proof {
                    assert(next.len() >= 2 && next[next.len() - 2] == s@[i - 1]);
                    let ws = done@.map_values(|w: Vec<char>| w@).push(cur@);
                    assert(ws.drop_last() =~= done@.map_values(|w: Vec<char>| w@));
                }
                cur.push(c);
            } else {
                proof {
                    assert(i >= 1 ==> next[next.len() - 2] == s@[i - 1]);
                }
                cur = Vec::new();
                cur.push(c);
                proof {
                    assert(cur@ =~= seq![c]);
                }
            }
            in_word = true;
        }
        i = i + 1;
    }
    proof {
        assert(s@.subrange(0, s@.len() as int) =~= s@);
    }
    if in_word {
        proof {
            assert(done@.map_values(|w: Vec<char>| w@).push(cur@) =~= done@.push(cur).map_values(
                |w: Vec<char>| w@,
            ));
        }
        done.push(cur);
    }
    done
}

/// Whether `c` is an ASCII decimal digit.
pub open spec fn is_digit(c: char) -> bool {
    '0' <= c <= '9'
}

/// The number the decimal digits `d` spell.
pub open spec fn digits_value(d: Seq<char>) -> nat
    decreases d.len(),
{
    if d.len() == 0 {
        0
    } else {
        digits_value(d.drop_last()) * 10 + ((d.last() as u32) - ('0' as u32)) as nat
    }
}

/// Whether every character of `d` is a decimal digit.
pub open spec fn all_digits(d: Seq<char>) -> bool {
    forall|i: int| 0 <= i < d.len() ==> is_digit(#[trigger] d[i])
}

/// `t` without one leading `+`.
pub open spec fn unsigned_digits(t: Seq<char>) -> Seq<char> {
    if t.len() > 0 && t[0] == '+' { t.drop_first() } else { t }
}

/// What parsing `t` as a `u64` gives (as `u64::from_str`): an optional `+`,
/// then one or more decimal digits whose value fits in 64 bits.
pub open spec fn parse_u64_spec(t: Seq<char>) -> Option<u64> {
    let d = unsigned_digits(t);
    if d.len() > 0 && all_digits(d) && digits_value(d) <= u64::MAX {
        Some(digits_value(d) as u64)
    } else {
        None
    }
}

proof fn lemma_digits_value_grows(d: Seq<char>, j: int)
    requires
        0 <= j <= d.len(),
        forall|i: int| 0 <= i < d.len() ==> is_digit(#[trigger] d[i]),
    ensures
        digits_value(d.subrange(0, j)) <= digits_value(d),
    decreases d.len() - j,
{
    if j < d.len() {
        lemma_digits_value_grows(d, j + 1);
        assert(d.subrange(0, j + 1).drop_last() =~= d.subrange(0, j));
    } else {
        assert(d.subrange(0, j) =~= d);
    }
}

/// Parses `t` as a `u64`.
pub fn parse_u64(t: &Vec<char>) -> (r: Option<u64>)
    ensures
        r == parse_u64_spec(t@),
{
    let start: usize = if t.len() > 0 && t[0] == '+' { 1 } else { 0 };
    let ghost d = unsigned_digits(t@);
    proof {
        assert(d =~= t@.subrange(start as int, t@.len() as int));
    }
    if start >= t.len() {
        return None;
    }
    let mut acc: u64 = 0;
    let mut i: usize = start;
    while i < t.len()
        invariant
            start <= i <= t@.len(),
            start < t@.len(),
            d == t@.subrange(start as int, t@.len() as int),
            d == unsigned_digits(t@),
            forall|k: int| 0 <= k < i - start ==> is_digit(#[trigger] d[k]),
            acc == digits_value(d.subrange(0, i - start)),
        decreases t@.len() - i,
    {
        let c = t[i];
        if !('0' <= c && c <= '9') {
            proof {
                assert(d[i - start] == c);
                assert(!is_digit(d[i - start]));
                assert(!all_digits(d));
            }
            return None;
        }
        let digit = (c as u32 - '0' as u32) as u64;
        proof {
            assert(d.subrange(0, i - start + 1).drop_last() =~= d.subrange(0, i - start));
            assert(d.subrange(0, i - start + 1).last() == c);
        }
        let next = match acc.checked_mul(10) {
            None => None,
            Some(m) => m.checked_add(digit),
        };
        match next {
            None => {
                proof {
                    assert(digits_value(d.subrange(0, i - start + 1)) > u64::MAX);
                    if all_digits(d) {
                        lemma_digits_value_grows(d, i - start + 1);
                    }
                }
                return None;
            },
            Some(v) => {
                acc = v;
            },
        }
        i = i + 1;
    }
    proof {
        assert(d.subrange(0, d.len() as int) =~= d);
    }
    Some(acc)
}

/// The pieces of `s` after each `\n` (each keeps its `\n`; the last may
/// lack one), as `str::split_inclusive('\n')`.
pub open spec fn line_pieces(s: Seq<char>) -> Seq<Seq<char>>
    decreases s.len(),
{
    if s.len() == 0 {
        Seq::empty()
    } else {
        let p = line_pieces(s.drop_last());
        let c = s.last();
        if s.len() == 1 || s[s.len() - 2] == '\n' {
            p.push(seq![c])
        } else {
            p.drop_last().push(p.last().push(c))
        }
    }
}

/// A piece without its line ending: a final `\n`, and then a `\r` before it.
pub open spec fn strip_line_end(piece: Seq<char>) -> Seq<char> {
    if piece.len() > 0 && piece.last() == '\n' {
        let q = piece.drop_last();
        if q.len() > 0 && q.last() == '\r' {
            q.drop_last()
        } else {
            q
        }
    } else {
        piece
    }
}

/// The lines of `s` (as `str::lines`).
pub open spec fn lines(s: Seq<char>) -> Seq<Seq<char>> {
    line_pieces(s).map_values(|p: Seq<char>| strip_line_end(p))
}

/// Splits `s` into its pieces after each `\n`.
pub fn split_line_pieces(s: &Vec<char>) -> (r: Vec<Vec<char>>)
    ensures
        r@.map_values(|w: Vec<char>| w@) == line_pieces(s@),
{
    let mut done: Vec<Vec<char>> = Vec::new();
    let mut cur: Vec<char> = Vec::new();
    let mut open = false;
    let mut i: usize = 0;
    while i < s.len()
        invariant
            i <= s@.len(),
            open == (i > 0 && s@[i - 1] != '\n'),
            open ==> line_pieces(s@.subrange(0, i as int)) == done@.map_values(|w: Vec<char>| w@).push(cur@),
            !open ==> line_pieces(s@.subrange(0, i as int)) == done@.map_values(|w: Vec<char>| w@),
        decreases s@.len() - i,
    {
        let c = s[i];
        let ghost pre = s@.subrange(0, i as int);
        let ghost next = s@.subrange(0, i + 1);
        proof {
            assert(next.drop_last() =~= pre);
            assert(next.last() == c);
            assert(i >= 1 ==> next[next.len() - 2] == s@[i - 1]);
        }
        if open {
            proof {
                let ws = done@.map_values(|w: Vec<char>| w@).push(cur@);
                assert(ws.drop_last() =~= done@.map_values(|w: Vec<char>| w@));
            }
            cur.push(c);
        } else {
            cur = Vec::new();
            cur.push(c);
            proof {
                assert(cur@ =~= seq![c]);
            }
        }
        if c == '\n' {
            let w = cur;
            cur = Vec::new();
            proof {
                assert(done@.map_values(|w: Vec<char>| w@).push(w@) =~= done@.push(w).map_values(
                    |w: Vec<char>| w@,
                ));
            }
            done.push(w);
            open = false;
        } else {
            open = true;
        }
        i = i + 1;
    }
    proof {
        assert(s@.subrange(0, s@.len() as int) =~= s@);
    }
    if open {
        proof {
            assert(done@.map_values(|w: Vec<char>| w@).push(cur@) =~= done@.push(cur).map_values(
                |w: Vec<char>| w@,
            ));
        }
        done.push(cur);
    }
    done
}

/// `piece` without its line ending.
pub fn strip_piece(piece: &Vec<char>) -> (r: Vec<char>)
    ensures
        r@ == strip_line_end(piece@),
{
    let n = piece.len();
    let mut end = n;
    if end > 0 && piece[end - 1] == '\n' {
        end = end - 1;
        if end > 0 && piece[end - 1] == '\r' {
            end = end - 1;
        }
    }
    let mut r: Vec<char> = Vec::new();
    let mut i: usize = 0;
    while i < end
        invariant
            end <= piece@.len(),
            i <= end,
            r@ == piece@.subrange(0, i as int),
        decreases end - i,
    {
        r.push(piece[i]);
        i = i + 1;
        proof {
            assert(r@ =~= piece@.subrange(0, i as int));
        }
    }
    proof {
        assert(r@ =~= strip_line_end(piece@));
    }
    r
}

/// Whether `s` begins with `p`.
pub open spec fn has_prefix(s: Seq<char>, p: Seq<char>) -> bool {
    p.len() <= s.len() && s.subrange(0, p.len() as int) == p
}

/// Whether `s` begins with `p`.
pub fn starts_with(s: &Vec<char>, p: &Vec<char>) -> (b: bool)
    ensures
        b == has_prefix(s@, p@),
{
    if p.len() > s.len() {
        return false;
    }
    let mut i: usize = 0;
    while i < p.len()
        invariant
            p@.len() <= s@.len(),
            i <= p@.len(),
            forall|k: int| 0 <= k < i ==> s@[k] == p@[k],
        decreases p@.len() - i,
    {
        if s[i] != p[i] {
            proof {
                assert(s@.subrange(0, p@.len() as int)[i as int] != p@[i as int]);
            }
            return false;
        }
        i = i + 1;
    }
    proof {
        assert(s@.subrange(0, p@.len() as int) =~= p@);
    }
    true
}

/// The decimal digit character of `d < 10`.
pub open spec fn digit_char(d: nat) -> char {
    if d == 0 { '0' }
    else if d == 1 { '1' }
    else if d == 2 { '2' }
    else if d == 3 { '3' }
    else if d == 4 { '4' }
    else if d == 5 { '5' }
    else if d == 6 { '6' }
    else if d == 7 { '7' }
    else if d == 8 { '8' }
    else { '9' }
}

/// The decimal notation of `n`, without leading zeros.
pub open spec fn decimal(n: nat) -> Seq<char>
    decreases n,
{
    if n < 10 {
        seq![digit_char(n)]
    } else {
        decimal(n / 10) + seq![digit_char(n % 10)]
    }
}

fn digit_str(d: u64) -> (s: &'static str)
    requires
        d < 10,
    ensures
        s@ == seq![digit_char(d as nat)],
{
    proof {
        reveal_strlit("0");
        reveal_strlit("1");
        reveal_strlit("2");
        reveal_strlit("3");
        reveal_strlit("4");
        reveal_strlit("5");
        reveal_strlit("6");
        reveal_strlit("7");
        reveal_strlit("8");
        reveal_strlit("9");
    }
    if d == 0 { "0" }
    else if d == 1 { "1" }
    else if d == 2 { "2" }
    else if d == 3 { "3" }
    else if d == 4 { "4" }
    else if d == 5 { "5" }
    else if d == 6 { "6" }
    else if d == 7 { "7" }
    else if d == 8 { "8" }
    else { "9" }
}

/// Appends the decimal notation of `n` to `out`.
pub fn append_decimal(out: &mut String, n: u64)
    ensures
        final(out)@ == old(out)@ + decimal(n as nat),
    decreases n,
{
    if n >= 10 {
        append_decimal(out, n / 10);
    }
    out.append(digit_str(n % 10));
    proof {
        if n >= 10 {
            assert(decimal(n as nat) == decimal((n / 10) as nat) + seq![digit_char((n % 10) as nat)]);
        }
    }
}

} // verus!
