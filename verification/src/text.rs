//! Text as sequences of characters: searching, splitting into lines and
//! whitespace-separated tokens, and decimal numerals.
//!
//! Every specification here is over `Seq<char>`, the view of `str` and
//! `String`; the executable functions work on the characters of a string
//! collected into a `Vec<char>`.
use vstd::prelude::*;

verus! {

/// The characters of `s`, in order.
pub fn chars_of(s: &str) -> (chars: Vec<char>)
    ensures
        chars@ == s@,
{
    let mut chars: Vec<char> = Vec::new();
    for c in it: s.chars()
        invariant
            chars@ == it.seq().take(it.index() as int),
    {
        chars.push(c);
    }
    chars
}

/// Whether `a` and `b` hold the same characters.
pub fn same_text(a: &str, b: &str) -> (same: bool)
    ensures
        same == (a@ == b@),
{
    let x = chars_of(a);
    let y = chars_of(b);
    if x.len() != y.len() {
        return false;
    }
    let mut i: usize = 0;
    while i < x.len()
        invariant
            i <= x.len(),
            x@ == a@,
            y@ == b@,
            x.len() == y.len(),
            forall|j: int| 0 <= j < i ==> x@[j] == y@[j],
        decreases x.len() - i,
    {
        if x[i] != y[i] {
            assert(a@[i as int] != b@[i as int]);
            return false;
        }
        i += 1;
    }
    assert(x@ =~= y@);
    true
}

/// The number of items of `s` before the first occurrence of `c`; the
/// length of `s` where `c` does not occur.
pub open spec fn index_of<A>(s: Seq<A>, c: A) -> nat
    decreases s.len(),
{
    if s.len() == 0 || s[0] == c {
        0
    } else {
        1 + index_of(s.drop_first(), c)
    }
}

/// `index_of(s, c)` is the least index at which `c` stands.
pub proof fn lemma_index_of<A>(s: Seq<A>, c: A)
    ensures
        index_of(s, c) <= s.len(),
        forall|j: int| 0 <= j < index_of(s, c) ==> s[j] != c,
        index_of(s, c) < s.len() ==> s[index_of(s, c) as int] == c,
        index_of(s, c) == s.len() <==> !s.contains(c),
    decreases s.len(),
{
    if s.len() == 0 || s[0] == c {
    } else {
        let t = s.drop_first();
        lemma_index_of(t, c);
        assert forall|j: int| 0 <= j < index_of(s, c) implies s[j] != c by {
            if j > 0 {
                assert(s[j] == t[j - 1]);
            }
        }
        if index_of(s, c) < s.len() {
            assert(s[index_of(s, c) as int] == t[index_of(t, c) as int]);
        }
    }
}

/// Any index that holds `c` and has no `c` before it is `index_of(s, c)`;
/// so is the length of `s` when `c` does not occur.
pub proof fn lemma_index_of_is<A>(s: Seq<A>, c: A, i: int)
    requires
        0 <= i <= s.len(),
        forall|j: int| 0 <= j < i ==> s[j] != c,
        i < s.len() ==> s[i] == c,
    ensures
        index_of(s, c) == i,
{
    lemma_index_of(s, c);
    let k = index_of(s, c) as int;
    if k < i {
        assert(s[k] == c);
    } else if i < k {
        assert(s[i] == c);
    }
}

/// The first index at or after `from` at which `c` stands, or the length of
/// `chars` where there is none.
pub fn find_char(chars: &Vec<char>, from: usize, c: char) -> (at: usize)
    requires
        from <= chars.len(),
    ensures
        at == from + index_of(chars@.skip(from as int), c),
        from <= at <= chars.len(),
{
    let mut i: usize = from;
    while i < chars.len() && chars[i] != c
        invariant
            from <= i <= chars.len(),
            forall|j: int| from <= j < i ==> chars@[j] != c,
        decreases chars.len() - i,
    {
        i += 1;
    }
    proof {
        lemma_index_of_is(chars@.skip(from as int), c, i - from);
    }
    i
}

/// Whether `c` has the Unicode property `White_Space`.
pub open spec fn is_whitespace(c: char) -> bool {
    let u = c as u32;
    ||| 0x09 <= u <= 0x0D
    ||| u == 0x20
    ||| u == 0x85
    ||| u == 0xA0
    ||| u == 0x1680
    ||| 0x2000 <= u <= 0x200A
    ||| u == 0x2028
    ||| u == 0x2029
    ||| u == 0x202F
    ||| u == 0x205F
    ||| u == 0x3000
}

/// Whether `c` is a whitespace character.
pub fn char_is_whitespace(c: char) -> (b: bool)
    ensures
        b == is_whitespace(c),
{
    let u: u32 = c as u32;
    (0x09 <= u && u <= 0x0D) || u == 0x20 || u == 0x85 || u == 0xA0 || u == 0x1680 || (0x2000 <= u
        && u <= 0x200A) || u == 0x2028 || u == 0x2029 || u == 0x202F || u == 0x205F || u == 0x3000
}

/// The length of the longest prefix of `s` made of whitespace only
/// (`spaces` true) or of no whitespace at all (`spaces` false).
pub open spec fn run_len(s: Seq<char>, spaces: bool) -> nat
    decreases s.len(),
{
    if s.len() == 0 || is_whitespace(s[0]) != spaces {
        0
    } else {
        1 + run_len(s.drop_first(), spaces)
    }
}

/// `run_len(s, spaces)` ends at the first character of the other kind.
pub proof fn lemma_run_len(s: Seq<char>, spaces: bool)
    ensures
        run_len(s, spaces) <= s.len(),
        forall|j: int| 0 <= j < run_len(s, spaces) ==> is_whitespace(s[j]) == spaces,
        run_len(s, spaces) < s.len() ==> is_whitespace(s[run_len(s, spaces) as int]) != spaces,
    decreases s.len(),
{
    if s.len() == 0 || is_whitespace(s[0]) != spaces {
    } else {
        let t = s.drop_first();
        lemma_run_len(t, spaces);
        assert forall|j: int| 0 <= j < run_len(s, spaces) implies is_whitespace(s[j])
            == spaces by {
            if j > 0 {
                assert(s[j] == t[j - 1]);
            }
        }
        if run_len(s, spaces) < s.len() {
            assert(s[run_len(s, spaces) as int] == t[run_len(t, spaces) as int]);
        }
    }
}

/// Any index up to which all characters are of one kind, and which holds
/// one of the other kind or ends `s`, is `run_len(s, spaces)`.
pub proof fn lemma_run_len_is(s: Seq<char>, spaces: bool, i: int)
    requires
        0 <= i <= s.len(),
        forall|j: int| 0 <= j < i ==> is_whitespace(s[j]) == spaces,
        i < s.len() ==> is_whitespace(s[i]) != spaces,
    ensures
        run_len(s, spaces) == i,
{
    lemma_run_len(s, spaces);
    let k = run_len(s, spaces) as int;
    if k < i {
        assert(is_whitespace(s[k]) != spaces);
    } else if i < k {
        assert(is_whitespace(s[i]) == spaces);
    }
}

/// The end of the run of whitespace (`spaces` true) or of other characters
/// (`spaces` false) that starts at `from`.
pub fn span(chars: &Vec<char>, from: usize, spaces: bool) -> (to: usize)
    requires
        from <= chars.len(),
    ensures
        to == from + run_len(chars@.skip(from as int), spaces),
        from <= to <= chars.len(),
{
    let mut i: usize = from;
    while i < chars.len() && char_is_whitespace(chars[i]) == spaces
        invariant
            from <= i <= chars.len(),
            forall|j: int| from <= j < i ==> is_whitespace(chars@[j]) == spaces,
        decreases chars.len() - i,
    {
        i += 1;
    }
    proof {
        lemma_run_len_is(chars@.skip(from as int), spaces, i - from);
    }
    i
}

/// The maximal runs of non-whitespace characters of `s`, in order.
pub open spec fn tokens(s: Seq<char>) -> Seq<Seq<char>>
    decreases s.len(),
    via tokens_decreases
{
    let rest = s.skip(run_len(s, true) as int);
    if rest.len() == 0 {
        Seq::empty()
    } else {
        let n = run_len(rest, false) as int;
        seq![rest.take(n)] + tokens(rest.skip(n))
    }
}

#[via_fn]
proof fn tokens_decreases(s: Seq<char>) {
    lemma_run_len(s, true);
    let rest = s.skip(run_len(s, true) as int);
    lemma_run_len(rest, false);
}

/// Whether `places[k]` is the place of the token of `s` with index `k`: it
/// starts where the whitespace after the token before it (or from the start
/// of `s`) ends, and ends where whitespace starts again.
pub open spec fn is_token_place(s: Seq<char>, places: Seq<(usize, usize)>, k: int) -> bool {
    let from = if k == 0 {
        0
    } else {
        places[k - 1].1 as int
    };
    &&& places[k].0 == from + run_len(s.skip(from), true)
    &&& places[k].1 == places[k].0 + run_len(s.skip(places[k].0 as int), false)
    &&& from <= places[k].0 < places[k].1 <= s.len()
    &&& tokens(s)[k] == s.subrange(places[k].0 as int, places[k].1 as int)
}

/// The places of the tokens of `chars`: for each, the index of its first
/// character and the index after its last.
pub fn token_ranges(chars: &Vec<char>) -> (ranges: Vec<(usize, usize)>)
    ensures
        ranges.len() == tokens(chars@).len(),
        forall|k: int| 0 <= k < ranges.len() ==> #[trigger] is_token_place(chars@, ranges@, k),
{
    let mut ranges: Vec<(usize, usize)> = Vec::new();
    let ghost mut found: Seq<Seq<char>> = Seq::empty();
    let mut i: usize = 0;
    assert(chars@.skip(0) =~= chars@);
    assert(found + tokens(chars@) =~= tokens(chars@));
    loop
        invariant
            i <= chars.len(),
            tokens(chars@) == found + tokens(chars@.skip(i as int)),
            ranges.len() == found.len(),
            i == if ranges.len() == 0 {
                0
            } else {
                ranges[ranges.len() - 1].1 as int
            },
            forall|k: int| 0 <= k < ranges.len() ==> #[trigger] is_token_place(chars@, ranges@, k),
        ensures
            tokens(chars@) == found,
            ranges.len() == found.len(),
            forall|k: int| 0 <= k < ranges.len() ==> #[trigger] is_token_place(chars@, ranges@, k),
        decreases chars.len() - i,
    {
        let ghost s = chars@.skip(i as int);
        let ghost before = ranges@;
        let start: usize = span(chars, i, true);
        let ghost rest = s.skip(run_len(s, true) as int);
        assert(rest =~= chars@.skip(start as int));
        if start == chars.len() {
            assert(tokens(s) =~= Seq::<Seq<char>>::empty());
            assert(found + tokens(s) =~= found);
            break;
        }
        let end: usize = span(chars, start, false);
        proof {
            lemma_run_len(s, true);
            lemma_run_len(rest, false);
            let n = run_len(rest, false) as int;
            assert(rest[0] == s[run_len(s, true) as int]);
            assert(n >= 1);
            assert(rest.take(n) =~= chars@.subrange(start as int, end as int));
            assert(rest.skip(n) =~= chars@.skip(end as int));
            assert(tokens(s) == seq![rest.take(n)] + tokens(rest.skip(n)));
            assert(found + tokens(s) =~= found.push(rest.take(n)) + tokens(rest.skip(n)));
            found = found.push(rest.take(n));
        }
        ranges.push((start, end));
        proof {
            assert forall|k: int| 0 <= k < ranges.len() implies #[trigger] is_token_place(
                chars@,
                ranges@,
                k,
            ) by {
                if k < before.len() {
                    assert(is_token_place(chars@, before, k));
                }
            }
        }
        i = end;
    }
    ranges
}

/// Whether `pat` stands in `s` at index `i`.
pub open spec fn occurs_at(s: Seq<char>, pat: Seq<char>, i: int) -> bool {
    0 <= i && i + pat.len() <= s.len() && s.subrange(i, i + pat.len()) == pat
}

/// Whether `pat` occurs somewhere in `s` as a contiguous run of characters.
pub open spec fn contains(s: Seq<char>, pat: Seq<char>) -> bool {
    exists|i: int| occurs_at(s, pat, i)
}

/// Whether `pat` occurs in `chars`.
pub fn has_substring(chars: &Vec<char>, pat: &Vec<char>) -> (found: bool)
    ensures
        found == contains(chars@, pat@),
{
    if pat.len() > chars.len() {
        return false;
    }
    let last: usize = chars.len() - pat.len();
    let mut i: usize = 0;
    while i <= last
        invariant
            last + pat.len() == chars.len(),
            i <= last + 1,
            forall|j: int| 0 <= j < i ==> !occurs_at(chars@, pat@, j),
        decreases last + 1 - i,
    {
        let mut k: usize = 0;
        while k < pat.len() && chars[i + k] == pat[k]
            invariant
                last + pat.len() == chars.len(),
                i <= last,
                k <= pat.len(),
                forall|t: int| 0 <= t < k ==> chars@[i + t] == pat@[t],
            decreases pat.len() - k,
        {
            k += 1;
        }
        if k == pat.len() {
            assert(chars@.subrange(i as int, i + pat.len()) =~= pat@);
            assert(occurs_at(chars@, pat@, i as int));
            return true;
        }
        assert(chars@.subrange(i as int, i + pat.len())[k as int] != pat@[k as int]);
        i += 1;
    }
    false
}

/// `line` without the carriage return that ends it, if one does.
pub open spec fn strip_cr(line: Seq<char>) -> Seq<char> {
    if line.len() > 0 && line.last() == '\r' {
        line.drop_last()
    } else {
        line
    }
}

/// The lines of `s`. A line ends at a line feed; the line feed, and a
/// carriage return directly before it, belong to no line. What follows the
/// last line feed is a line of its own unless it is empty, and keeps a
/// carriage return at its end.
pub open spec fn lines(s: Seq<char>) -> Seq<Seq<char>>
    decreases s.len(),
{
    if s.len() == 0 {
        Seq::empty()
    } else {
        let n = index_of(s, '\n') as int;
        if n >= s.len() {
            seq![s]
        } else {
            seq![strip_cr(s.take(n))] + lines(s.skip(n + 1))
        }
    }
}

/// The length of the first line of `s`.
pub open spec fn line_len(s: Seq<char>) -> nat {
    let n = index_of(s, '\n') as int;
    if n >= s.len() {
        s.len()
    } else {
        strip_cr(s.take(n)).len()
    }
}

/// The number of characters of `s` before its second line: those of the
/// first line and of what ends it.
pub open spec fn line_span(s: Seq<char>) -> nat {
    let n = index_of(s, '\n');
    if n >= s.len() {
        s.len()
    } else {
        n + 1
    }
}

/// Whether `part` is a contiguous piece of `s`.
pub open spec fn is_piece_of(part: Seq<char>, s: Seq<char>) -> bool {
    exists|a: int, b: int| 0 <= a <= b <= s.len() && part == #[trigger] s.subrange(a, b)
}

/// What occurs in a piece of `s` occurs in `s`.
pub proof fn lemma_piece_contains(part: Seq<char>, s: Seq<char>, pat: Seq<char>)
    requires
        is_piece_of(part, s),
        contains(part, pat),
    ensures
        contains(s, pat),
{
    let (a, b) = choose|a: int, b: int| 0 <= a <= b <= s.len() && part == #[trigger] s.subrange(a, b);
    let i = choose|i: int| occurs_at(part, pat, i);
    assert(s.subrange(a + i, a + i + pat.len()) =~= part.subrange(i, i + pat.len()));
    assert(occurs_at(s, pat, a + i));
}

/// Every line of `s` is a piece of `s`.
pub proof fn lemma_lines_are_pieces(s: Seq<char>)
    ensures
        forall|k: int| 0 <= k < lines(s).len() ==> is_piece_of(#[trigger] lines(s)[k], s),
    decreases s.len(),
{
    if s.len() > 0 {
        lemma_index_of(s, '\n');
        let n = index_of(s, '\n') as int;
        if n >= s.len() {
            assert(s == s.subrange(0, s.len() as int));
        } else {
            let head = strip_cr(s.take(n));
            let rest = s.skip(n + 1);
            lemma_lines_are_pieces(rest);
            assert forall|k: int| 0 <= k < lines(s).len() implies is_piece_of(
                #[trigger] lines(s)[k],
                s,
            ) by {
                if k == 0 {
                    if head == s.take(n) {
                        assert(head == s.subrange(0, n));
                    } else {
                        assert(head =~= s.subrange(0, n - 1));
                    }
                } else {
                    let line = lines(rest)[k - 1];
                    assert(lines(s)[k] == line);
                    let (a, b) = choose|a: int, b: int|
                        0 <= a <= b <= rest.len() && line == #[trigger] rest.subrange(a, b);
                    assert(line =~= s.subrange(n + 1 + a, n + 1 + b));
                }
            }
        }
    }
}

/// A character other than line feed and carriage return occurs in `s`
/// exactly when it occurs in one of the lines of `s`.
pub proof fn lemma_lines_keep(s: Seq<char>, c: char)
    requires
        c != '\n',
        c != '\r',
    ensures
        s.contains(c) <==> exists|k: int| 0 <= k < lines(s).len() && (#[trigger] lines(s)[k]).contains(c),
    decreases s.len(),
{
    lemma_lines_are_pieces(s);
    if exists|k: int| 0 <= k < lines(s).len() && (#[trigger] lines(s)[k]).contains(c) {
        let k = choose|k: int| 0 <= k < lines(s).len() && (#[trigger] lines(s)[k]).contains(c);
        let line = lines(s)[k];
        let (a, b) = choose|a: int, b: int| 0 <= a <= b <= s.len() && line == #[trigger] s.subrange(a, b);
        let i = choose|i: int| 0 <= i < line.len() && line[i] == c;
        assert(s[a + i] == c);
    }
    if s.contains(c) {
        let p = choose|p: int| 0 <= p < s.len() && s[p] == c;
        lemma_index_of(s, '\n');
        let n = index_of(s, '\n') as int;
        if n >= s.len() {
            assert(lines(s)[0] == s);
        } else {
            let head = strip_cr(s.take(n));
            let rest = s.skip(n + 1);
            if p < n {
                assert(head[p] == c);
                assert(lines(s)[0] == head);
            } else {
                assert(rest[p - n - 1] == c);
                lemma_lines_keep(rest, c);
                let k = choose|k: int| 0 <= k < lines(rest).len() && (#[trigger] lines(rest)[k]).contains(c);
                assert(lines(s)[k + 1] == lines(rest)[k]);
            }
        }
    }
}

/// The first line of what `chars` holds from `from` on: the index after the
/// line's last character, and the index at which the following line starts.
pub fn next_line(chars: &Vec<char>, from: usize) -> (r: (usize, usize))
    requires
        from < chars.len(),
    ensures
        r.0 == from + line_len(chars@.skip(from as int)),
        r.1 == from + line_span(chars@.skip(from as int)),
        from <= r.0 <= r.1 <= chars.len(),
        from < r.1,
        lines(chars@.skip(from as int)) == seq![chars@.subrange(from as int, r.0 as int)] + lines(
            chars@.skip(r.1 as int),
        ),
{
    let ghost s = chars@.skip(from as int);
    let feed: usize = find_char(chars, from, '\n');
    if feed == chars.len() {
        assert(s =~= chars@.subrange(from as int, feed as int));
        assert(lines(chars@.skip(feed as int)) =~= Seq::<Seq<char>>::empty());
        assert(seq![s] + Seq::<Seq<char>>::empty() =~= seq![s]);
        (feed, feed)
    } else {
        let end: usize = if feed > from && chars[feed - 1] == '\r' {
            feed - 1
        } else {
            feed
        };
        proof {
            let n = feed - from;
            assert(s.take(n) =~= chars@.subrange(from as int, feed as int));
            assert(strip_cr(s.take(n)) =~= chars@.subrange(from as int, end as int));
            assert(s.skip(n + 1) =~= chars@.skip(feed + 1));
        }
        (end, feed + 1)
    }
}

/// The decimal digit that stands for `d`, which is below ten.
pub open spec fn digit(d: nat) -> char {
    seq!['0', '1', '2', '3', '4', '5', '6', '7', '8', '9'][d as int]
}

/// The decimal numeral of `n`, without leading zeros.
pub open spec fn decimal(n: nat) -> Seq<char>
    decreases n,
{
    if n < 10 {
        seq![digit(n)]
    } else {
        decimal(n / 10).push(digit(n % 10))
    }
}

/// The one-character text of the decimal digit for `d`.
fn digit_text(d: usize) -> (t: &'static str)
    requires
        d < 10,
    ensures
        t@ == seq![digit(d as nat)],
{
    proof {
        reveal_strlit("0");
        reveal_strlit("1");
        reveal_strlit("2");
        reveal_strlit("3");
        reveal_strlit("4");
        reveal_strlit("5");
        reveal_strlit("6");
        reveal_strlit("7");
        reveal_strlit("8");
        reveal_strlit("9");
    }
    let t = if d == 0 {
        "0"
    } else if d == 1 {
        "1"
    } else if d == 2 {
        "2"
    } else if d == 3 {
        "3"
    } else if d == 4 {
        "4"
    } else if d == 5 {
        "5"
    } else if d == 6 {
        "6"
    } else if d == 7 {
        "7"
    } else if d == 8 {
        "8"
    } else {
        "9"
    };
    assert(t@ =~= seq![digit(d as nat)]);
    t
}

/// The decimal numeral of `n`.
pub fn decimal_string(n: usize) -> (text: String)
    ensures
        text@ == decimal(n as nat),
    decreases n,
{
    let last = digit_text(n % 10);
    if n < 10 {
        String::from_str(last)
    } else {
        let mut text = decimal_string(n / 10);
        text.append(last);
        assert(text@ =~= decimal((n / 10) as nat).push(digit((n % 10) as nat)));
        text
    }
}

} // verus!
