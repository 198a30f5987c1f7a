//! The high-score list and its text form: one score per line, best first,
//! at most `SCORES_KEEP` of them.

use vstd::prelude::*;
use vstd::multiset::Multiset;
use vstd::std_specs::iter::IteratorSpec;
use vstd::string::StringExecFns;

verus! {

broadcast use vstd::string::group_string_axioms;

/// How many scores the list keeps.
pub const SCORES_KEEP: usize = 10;

/// `c` is white space in Unicode's sense, as `char::is_whitespace` decides.
pub open spec fn is_ws(c: char) -> bool {
    ||| c == '\t'
    ||| c == '\n'
    ||| c == '\u{0b}'
    ||| c == '\u{0c}'
    ||| c == '\r'
    ||| c == ' '
    ||| c == '\u{85}'
    ||| c == '\u{a0}'
    ||| c == '\u{1680}'
    ||| ('\u{2000}' <= c && c <= '\u{200a}')
    ||| c == '\u{2028}'
    ||| c == '\u{2029}'
    ||| c == '\u{202f}'
    ||| c == '\u{205f}'
    ||| c == '\u{3000}'
}

/// `c` is white space.
pub fn is_whitespace(c: char) -> (res: bool)
    ensures
        res == is_ws(c),
{
    c == '\t' || c == '\n' || c == '\u{0b}' || c == '\u{0c}' || c == '\r' || c == ' ' || c
        == '\u{85}' || c == '\u{a0}' || c == '\u{1680}' || ('\u{2000}' <= c && c <= '\u{200a}')
        || c == '\u{2028}' || c == '\u{2029}' || c == '\u{202f}' || c == '\u{205f}' || c
        == '\u{3000}'
}

/// `s` without its leading white space.
pub open spec fn trim_start(s: Seq<char>) -> Seq<char>
    decreases s.len(),
{
    if s.len() > 0 && is_ws(s[0]) {
        trim_start(s.drop_first())
    } else {
        s
    }
}

/// `s` without its trailing white space.
pub open spec fn trim_end(s: Seq<char>) -> Seq<char>
    decreases s.len(),
{
    if s.len() > 0 && is_ws(s.last()) {
        trim_end(s.drop_last())
    } else {
        s
    }
}

/// `s` without white space at either end.
pub open spec fn trim(s: Seq<char>) -> Seq<char> {
    trim_end(trim_start(s))
}

/// `c` is one of the ASCII digits.
pub open spec fn is_digit(c: char) -> bool {
    '0' <= c && c <= '9'
}

/// Every character of `s` is an ASCII digit.
pub open spec fn all_digits(s: Seq<char>) -> bool {
    forall|i: int| 0 <= i < s.len() ==> is_digit(#[trigger] s[i])
}

/// The number the decimal digits `s` spell.
pub open spec fn digits_value(s: Seq<char>) -> nat
    decreases s.len(),
{
    if s.len() == 0 {
        0
    } else {
        digits_value(s.drop_last()) * 10 + ((s.last() as int) - ('0' as int)) as nat
    }
}

/// How a score is read from a trimmed line, as `str::parse::<u32>` reads
/// it: an optional `+`, then one or more decimal digits whose value fits in
/// a `u32`.
pub open spec fn parse_u32_spec(s: Seq<char>) -> Option<u32> {
    let d = if s.len() > 0 && s[0] == '+' {
        s.drop_first()
    } else {
        s
    };
    if d.len() > 0 && all_digits(d) && digits_value(d) <= u32::MAX {
        Some(digits_value(d) as u32)
    } else {
        None
    }
}

/// The lines of `s`, split at each `'\n'`.
pub open spec fn split_lines(s: Seq<char>) -> Seq<Seq<char>>
    decreases s.len(),
{
    if s.len() == 0 {
        seq![Seq::empty()]
    } else if s.last() == '\n' {
        split_lines(s.drop_last()).push(Seq::empty())
    } else {
        let p = split_lines(s.drop_last());
        p.update(p.len() - 1, p.last().push(s.last()))
    }
}

/// The scores read from `lines`, in order, skipping lines that hold none.
pub open spec fn parsed_lines(lines: Seq<Seq<char>>) -> Seq<u32>
    decreases lines.len(),
{
    if lines.len() == 0 {
        Seq::empty()
    } else {
        let p = parsed_lines(lines.drop_last());
        match parse_u32_spec(trim(lines.last())) {
            Some(v) => p.push(v),
            None => p,
        }
    }
}

/// The scores a text holds, in order.
pub open spec fn parse_scores_spec(text: Seq<char>) -> Seq<u32> {
    parsed_lines(split_lines(text))
}

/// A longer run of digits is worth at least as much as its prefix.
proof fn lemma_digits_value_prefix(s: Seq<char>, j: int)
    requires
        0 <= j <= s.len(),
    ensures
        digits_value(s.take(j)) <= digits_value(s),
    decreases s.len() - j,
{
    if j < s.len() {
        lemma_digits_value_prefix(s, j + 1);
        assert(s.take(j + 1).drop_last() =~= s.take(j));
    } else {
        assert(s.take(j) =~= s);
    }
}

/// Reads a score from one line: the line is trimmed and parsed as a `u32`.
pub fn parse_line(line: &Vec<char>) -> (res: Option<u32>)
    ensures
        res == parse_u32_spec(trim(line@)),
{
    let n = line.len();
    let mut start: usize = 0;
    assert(line@.skip(0) =~= line@);
    while start < n && is_whitespace(line[start])
        invariant
            0 <= start <= n,
            n == line@.len(),
            trim_start(line@) == trim_start(line@.skip(start as int)),
        decreases n - start,
    {
        proof {
            assert(line@.skip(start as int).drop_first() =~= line@.skip(start + 1));
        }
        start = start + 1;
    }
    proof {
        if start == n {
            assert(line@.skip(start as int) =~= Seq::<char>::empty());
        }
        assert(line@.skip(start as int) =~= line@.subrange(start as int, n as int));
    }
    let mut end: usize = n;
    while end > start && is_whitespace(line[end - 1])
        invariant
            0 <= start <= end <= n,
            n == line@.len(),
            trim_end(line@.subrange(start as int, n as int)) == trim_end(
                line@.subrange(start as int, end as int),
            ),
        decreases end - start,
    {
        proof {
            assert(line@.subrange(start as int, end as int).drop_last() =~= line@.subrange(
                start as int,
                end - 1,
            ));
        }
        end = end - 1;
    }
    let ghost t = line@.subrange(start as int, end as int);
    assert(trim(line@) == t);
    let mut k = start;
    if k < end && line[k] == '+' {
        k = k + 1;
    }
    let ghost d = line@.subrange(k as int, end as int);
    proof {
        if t.len() > 0 && t[0] == '+' {
            assert(d =~= t.drop_first());
        } else {
            assert(d =~= t);
        }
    }
    assert(parse_u32_spec(trim(line@)) == (if d.len() > 0 && all_digits(d) && digits_value(d)
        <= u32::MAX {
        Some(digits_value(d) as u32)
    } else {
        None
    }));
    if k == end {
        return None;
    }
    let mut acc: u64 = 0;
    let mut j = k;
    while j < end
        invariant
            k <= j <= end,
            end <= n,
            n == line@.len(),
            d == line@.subrange(k as int, end as int),
            acc == digits_value(d.take(j - k)),
            acc <= u32::MAX,
            parse_u32_spec(trim(line@)) == (if d.len() > 0 && all_digits(d) && digits_value(d)
                <= u32::MAX {
                Some(digits_value(d) as u32)
            } else {
                None
            }),
            all_digits(d.take(j - k)),
        decreases end - j,
    {
        let c = line[j];
        if !('0' <= c && c <= '9') {
            proof {
                assert(d[j - k] == c);
                assert(!is_digit(d[j - k]));
            }
            return None;
        }
        proof {
            assert(d.take(j - k + 1).drop_last() =~= d.take(j - k));
            assert(d.take(j - k + 1).last() == c);
        }
        acc = acc * 10 + (c as u64 - '0' as u64);
        j = j + 1;
        if acc > u32::MAX as u64 {
            proof {
                lemma_digits_value_prefix(d, j - k);
                if all_digits(d) {
                    assert(digits_value(d) > u32::MAX);
                }
            }
            return None;
        }
    }
    proof {
        assert(d.take(j - k) =~= d);
    }
    Some(acc as u32)
}

/// The characters of `text`.
fn chars_of(text: &str) -> (res: Vec<char>)
    ensures
        res@ == text@,
{
    let mut res: Vec<char> = Vec::new();
    for c in iter: text.chars()
        invariant
            res@ == iter.seq().take(iter.index() as int),
    {
        res.push(c);
    }
    assert(res@ =~= text@);
    res
}

/// The scores `text` holds: each line is trimmed and read as a `u32`, and
/// lines that do not read as one are skipped.
pub fn parse_scores(text: &str) -> (res: Vec<u32>)
    ensures
        res@ == parse_scores_spec(text@),
{
    let chars = chars_of(text);
    let n = chars.len();
    let mut res: Vec<u32> = Vec::new();
    let mut line: Vec<char> = Vec::new();
    let ghost mut done: Seq<Seq<char>> = Seq::empty();
    let mut i: usize = 0;
    proof {
        assert(chars@.take(0) =~= Seq::<char>::empty());
        assert(done.push(line@) =~= split_lines(chars@.take(0)));
    }
    while i < n
        invariant
            0 <= i <= n,
            n == chars@.len(),
            done.push(line@) == split_lines(chars@.take(i as int)),
            res@ == parsed_lines(done),
        decreases n - i,
    {
        let c = chars[i];
        proof {
            assert(chars@.take(i + 1).drop_last() =~= chars@.take(i as int));
            assert(chars@.take(i + 1).last() == c);
        }
        if c == '\n' {
            let v = parse_line(&line);
            proof {
                assert(done.push(line@).drop_last() =~= done);
                done = done.push(line@);
            }
            match v {
                Some(x) => res.push(x),
                None => {},
            }
            line = Vec::new();
            proof {
                assert(split_lines(chars@.take(i + 1)) == done.push(Seq::<char>::empty()));
                assert(done.push(line@) =~= done.push(Seq::<char>::empty()));
            }
        } else {
            let ghost before = line@;
            line.push(c);
            proof {
                let p = split_lines(chars@.take(i as int));
                assert(p == done.push(before));
                assert(done.push(line@) =~= p.update(p.len() - 1, p.last().push(c)));
            }
        }
        i = i + 1;
    }
    proof {
        assert(chars@.take(n as int) =~= chars@);
    }
    let v = parse_line(&line);
    proof {
        assert(done.push(line@).drop_last() =~= done);
    }
    match v {
        Some(x) => res.push(x),
        None => {},
    }
    res
}

/// `x` inserted into `s` before the first element it is not smaller than.
pub open spec fn insert_desc(x: u32, s: Seq<u32>) -> Seq<u32>
    decreases s.len(),
{
    if s.len() == 0 {
        seq![x]
    } else if x >= s[0] {
        seq![x] + s
    } else {
        seq![s[0]] + insert_desc(x, s.drop_first())
    }
}

/// `s` sorted from highest to lowest.
pub open spec fn sort_desc(s: Seq<u32>) -> Seq<u32>
    decreases s.len(),
{
    if s.len() == 0 {
        Seq::empty()
    } else {
        insert_desc(s[0], sort_desc(s.drop_first()))
    }
}

/// `s` runs from highest to lowest.
pub open spec fn sorted_desc(s: Seq<u32>) -> bool {
    forall|i: int, j: int| 0 <= i <= j < s.len() ==> s[i] >= s[j]
}

/// The best `SCORES_KEEP` of `s`, best first.
pub open spec fn top_scores_spec(s: Seq<u32>) -> Seq<u32> {
    if s.len() <= SCORES_KEEP {
        sort_desc(s)
    } else {
        sort_desc(s).take(SCORES_KEEP as int)
    }
}

proof fn lemma_insert_desc_at(x: u32, s: Seq<u32>, k: int)
    requires
        0 <= k <= s.len(),
        forall|j: int| 0 <= j < k ==> x < #[trigger] s[j],
        k == s.len() || x >= s[k],
    ensures
        insert_desc(x, s) == s.take(k) + seq![x] + s.skip(k),
    decreases k,
{
    if k == 0 {
        assert(s.skip(0) =~= s);
        assert(s.take(0) + seq![x] + s.skip(0) =~= seq![x] + s);
    } else {
        let t = s.drop_first();
        assert forall|j: int| 0 <= j < k - 1 implies x < #[trigger] t[j] by {
            assert(t[j] == s[j + 1]);
        }
        lemma_insert_desc_at(x, t, k - 1);
        assert(s.take(k) + seq![x] + s.skip(k) =~= seq![s[0]] + (t.take(k - 1) + seq![x] + t.skip(
            k - 1,
        )));
    }
}

/// Inserts `x` into `v` before the first element it is not smaller than.
pub fn insert_desc_into(v: &mut Vec<u32>, x: u32)
    ensures
        final(v)@ == insert_desc(x, old(v)@),
{
    let n = v.len();
    let mut k: usize = 0;
    while k < n && x < v[k]
        invariant
            0 <= k <= n,
            n == v@.len(),
            *v == *old(v),
            forall|j: int| 0 <= j < k ==> x < #[trigger] v@[j],
        decreases n - k,
    {
        k = k + 1;
    }
    proof {
        lemma_insert_desc_at(x, v@, k as int);
    }
    v.insert(k, x);
    proof {
        assert(v@ =~= old(v)@.take(k as int) + seq![x] + old(v)@.skip(k as int));
    }
}

/// `s` sorted from highest to lowest.
pub fn sort_scores_desc(s: &Vec<u32>) -> (res: Vec<u32>)
    ensures
        res@ == sort_desc(s@),
{
    let mut res: Vec<u32> = Vec::new();
    let mut i: usize = s.len();
    proof {
        assert(s@.skip(i as int) =~= Seq::<u32>::empty());
    }
    while i > 0
        invariant
            0 <= i <= s@.len(),
            res@ == sort_desc(s@.skip(i as int)),
        decreases i,
    {
        i = i - 1;
        proof {
            assert(s@.skip(i as int).drop_first() =~= s@.skip(i + 1));
        }
        insert_desc_into(&mut res, s[i]);
    }
    proof {
        assert(s@.skip(0) =~= s@);
    }
    res
}

/// The best `SCORES_KEEP` scores of `scores`, best first.
pub fn top_scores(scores: Vec<u32>) -> (res: Vec<u32>)
    ensures
        res@ == top_scores_spec(scores@),
{
    let mut sorted = sort_scores_desc(&scores);
    sorted.truncate(SCORES_KEEP);
    proof {
        lemma_sort_desc_perm(scores@);
    }
    sorted
}

/// The high-score list a text holds: its scores, best first, the best
/// `SCORES_KEEP` of them.
pub fn load_scores(text: &str) -> (res: Vec<u32>)
    ensures
        res@ == top_scores_spec(parse_scores_spec(text@)),
{
    top_scores(parse_scores(text))
}

/// Inserting into a sorted sequence keeps it sorted and adds one element.
pub proof fn lemma_insert_desc(x: u32, s: Seq<u32>)
    requires
        sorted_desc(s),
    ensures
        sorted_desc(insert_desc(x, s)),
        insert_desc(x, s).to_multiset() == s.to_multiset().insert(x),
        insert_desc(x, s).len() == s.len() + 1,
    decreases s.len(),
{
    broadcast use vstd::seq_lib::group_to_multiset_ensures;
    broadcast use vstd::multiset::group_multiset_axioms;

    if s.len() == 0 {
        assert(seq![x] =~= Seq::<u32>::empty().push(x));
    } else if x >= s[0] {
        let r = seq![x] + s;
        assert forall|i: int, j: int| 0 <= i <= j < r.len() implies r[i] >= r[j] by {
            if i > 0 {
                assert(r[i] == s[i - 1] && r[j] == s[j - 1]);
            } else if j > 0 {
                assert(r[j] == s[j - 1]);
                assert(s[0] >= s[j - 1]);
            }
        }
        assert(r.to_multiset() =~= s.to_multiset().insert(x)) by {
            vstd::seq_lib::lemma_seq_union_to_multiset_commutative(seq![x], s);
            vstd::seq_lib::lemma_multiset_commutative(seq![x], s);
            assert(seq![x].to_multiset() =~= Multiset::<u32>::empty().insert(x)) by {
                assert(seq![x] =~= Seq::<u32>::empty().push(x));
            }
        }
    } else {
        let t = s.drop_first();
        assert forall|i: int, j: int| 0 <= i <= j < t.len() implies t[i] >= t[j] by {
            assert(t[i] == s[i + 1] && t[j] == s[j + 1]);
        }
        lemma_insert_desc(x, t);
        let it = insert_desc(x, t);
        let r = seq![s[0]] + it;
        assert forall|i: int, j: int| 0 <= i <= j < r.len() implies r[i] >= r[j] by {
            if i > 0 {
                assert(r[i] == it[i - 1] && r[j] == it[j - 1]);
            } else if j > 0 {
                assert(r[j] == it[j - 1]);
                assert(it.to_multiset().count(it[j - 1]) > 0);
                assert(t.to_multiset().insert(x).count(it[j - 1]) > 0);
                if it[j - 1] != x {
                    assert(t.to_multiset().count(it[j - 1]) > 0);
                    assert(t.contains(it[j - 1]));
                    let m = choose|m: int| 0 <= m < t.len() && t[m] == it[j - 1];
                    assert(s[m + 1] == t[m]);
                }
            }
        }
        assert(r.to_multiset() =~= s.to_multiset().insert(x)) by {
            vstd::seq_lib::lemma_multiset_commutative(seq![s[0]], it);
            vstd::seq_lib::lemma_multiset_commutative(seq![s[0]], t);
            assert(s =~= seq![s[0]] + t);
            assert(seq![s[0]].to_multiset() =~= Multiset::<u32>::empty().insert(s[0])) by {
                assert(seq![s[0]] =~= Seq::<u32>::empty().push(s[0]));
            }
        }
    }
}

/// Sorting gives a sorted rearrangement of the input.
pub proof fn lemma_sort_desc_perm(s: Seq<u32>)
    ensures
        sorted_desc(sort_desc(s)),
        sort_desc(s).to_multiset() == s.to_multiset(),
        sort_desc(s).len() == s.len(),
    decreases s.len(),
{
    broadcast use vstd::seq_lib::group_to_multiset_ensures;
    broadcast use vstd::multiset::group_multiset_axioms;

    if s.len() == 0 {
        assert(s.to_multiset() =~= Multiset::<u32>::empty());
        assert(sort_desc(s).to_multiset() =~= Multiset::<u32>::empty());
    } else {
        lemma_sort_desc_perm(s.drop_first());
        lemma_insert_desc(s[0], sort_desc(s.drop_first()));
        vstd::seq_lib::lemma_multiset_commutative(seq![s[0]], s.drop_first());
        assert(s =~= seq![s[0]] + s.drop_first());
        assert(seq![s[0]].to_multiset() =~= Multiset::<u32>::empty().insert(s[0])) by {
            assert(seq![s[0]] =~= Seq::<u32>::empty().push(s[0]));
        }
    }
}

/// Sorting a sorted sequence leaves it as it is.
pub proof fn lemma_sort_desc_sorted_id(s: Seq<u32>)
    requires
        sorted_desc(s),
    ensures
        sort_desc(s) == s,
    decreases s.len(),
{
    if s.len() > 0 {
        let t = s.drop_first();
        assert forall|i: int, j: int| 0 <= i <= j < t.len() implies t[i] >= t[j] by {
            assert(t[i] == s[i + 1] && t[j] == s[j + 1]);
        }
        lemma_sort_desc_sorted_id(t);
        if t.len() > 0 {
            assert(s[0] >= t[0]);
        }
        assert(seq![s[0]] + t =~= s);
    }
}

/// The decimal digit for `d`.
pub open spec fn digit_char(d: int) -> char {
    (('0' as int) + d) as char
}

/// The decimal numeral of `n`, without leading zeros.
pub open spec fn decimal(n: nat) -> Seq<char>
    decreases n,
{
    if n < 10 {
        seq![digit_char(n as int)]
    } else {
        decimal(n / 10).push(digit_char((n % 10) as int))
    }
}

/// The lines `ls` joined with `'\n'` between them.
pub open spec fn join_lines(ls: Seq<Seq<char>>) -> Seq<char>
    decreases ls.len(),
{
    if ls.len() == 0 {
        Seq::empty()
    } else if ls.len() == 1 {
        ls[0]
    } else {
        join_lines(ls.drop_last()) + seq!['\n'] + ls.last()
    }
}

/// The numerals of the scores, one per line.
pub open spec fn numerals(s: Seq<u32>) -> Seq<Seq<char>> {
    s.map_values(|v: u32| decimal(v as nat))
}

/// The text form of a score list: one decimal score per line, no final
/// newline.
pub open spec fn format_scores_spec(s: Seq<u32>) -> Seq<char> {
    join_lines(numerals(s))
}

/// The one-character string for the digit `d`.
fn digit_str(d: u32) -> (res: &'static str)
    requires
        d < 10,
    ensures
        res@ == seq![digit_char(d as int)],
{
    proof {
        reveal_strlit("0");
        reveal_strlit("1");
        reveal_strlit("2");
        reveal_strlit("3");
        reveal_strlit("4");
        reveal_strlit("5");
        reveal_strlit("6");
        reveal_strlit("7");
        reveal_strlit("8");
        reveal_strlit("9");
    }
    let res = match d {
        0 => "0",
        1 => "1",
        2 => "2",
        3 => "3",
        4 => "4",
        5 => "5",
        6 => "6",
        7 => "7",
        8 => "8",
        _ => "9",
    };
    assert(res@ =~= seq![digit_char(d as int)]);
    res
}

/// Appends the decimal numeral of `n` to `out`.
fn push_decimal(out: &mut String, n: u32)
    ensures
        final(out)@ == old(out)@ + decimal(n as nat),
    decreases n,
{
    if n >= 10 {
        push_decimal(out, n / 10);
    }
    out.append(digit_str(n % 10));
    proof {
        if n >= 10 {
            assert(old(out)@ + decimal(n as nat) =~= old(out)@ + decimal((n / 10) as nat) + seq![
                digit_char((n % 10) as int),
            ]);
        } else {
            assert(old(out)@ + decimal(n as nat) =~= old(out)@ + seq![digit_char((n % 10) as int)]);
        }
    }
}

/// The text a score list is stored as: one decimal score per line, no
/// final newline.
pub fn format_scores(scores: &[u32]) -> (res: String)
    ensures
        res@ == format_scores_spec(scores@),
{
    let mut out = String::new();
    let ghost ls = numerals(scores@);
    let n = scores.len();
    let mut i: usize = 0;
    proof {
        reveal_strlit("\n");
        assert(ls.take(0) =~= Seq::<Seq<char>>::empty());
    }
    while i < n
        invariant
            0 <= i <= n,
            n == scores@.len(),
            ls == numerals(scores@),
            ls.len() == n,
            out@ == join_lines(ls.take(i as int)),
            "\n"@ == seq!['\n'],
        decreases n - i,
    {
        let ghost before = out@;
        if i > 0 {
            out.append("\n");
        }
        push_decimal(&mut out, scores[i]);
        proof {
            let t = ls.take(i + 1);
            assert(t.drop_last() =~= ls.take(i as int));
            assert(t.last() == decimal(scores@[i as int] as nat));
            if i == 0 {
                assert(out@ =~= t[0]);
            } else {
                assert(out@ =~= before + seq!['\n'] + t.last());
            }
        }
        i = i + 1;
    }
    proof {
        assert(ls.take(n as int) =~= ls);
    }
    out
}

/// A numeral is a non-empty run of digits worth its number.
proof fn lemma_decimal(n: nat)
    ensures
        decimal(n).len() >= 1,
        all_digits(decimal(n)),
        digits_value(decimal(n)) == n,
    decreases n,
{
    if n < 10 {
        let d = decimal(n);
        assert(d.drop_last() =~= Seq::<char>::empty());
        assert(digit_char(n as int) as int == '0' as int + n);
        assert(digits_value(d.drop_last()) == 0);
        assert(d.last() == digit_char(n as int));
        assert(digits_value(d) == digits_value(d.drop_last()) * 10 + n);
    } else {
        lemma_decimal(n / 10);
        let d = decimal(n);
        assert(d.drop_last() =~= decimal(n / 10));
        assert(digit_char((n % 10) as int) as int == '0' as int + n % 10);
        assert(d.last() == digit_char((n % 10) as int));
        assert(digits_value(d) == digits_value(decimal(n / 10)) * 10 + n % 10);
        assert((n / 10) * 10 + n % 10 == n) by (nonlinear_arith);
        assert(all_digits(d)) by {
            assert forall|i: int| 0 <= i < d.len() implies is_digit(#[trigger] d[i]) by {
                if i < d.len() - 1 {
                    assert(d[i] == decimal(n / 10)[i]);
                }
            }
        }
    }
}

/// A run of digits is its own trim: digits are not white space.
proof fn lemma_trim_digits(d: Seq<char>)
    requires
        d.len() >= 1,
        all_digits(d),
    ensures
        trim(d) == d,
{
    assert(is_digit(d[0]));
    assert(is_digit(d[d.len() - 1]));
}

/// A numeral reads back as its number.
proof fn lemma_parse_decimal(v: u32)
    ensures
        parse_u32_spec(trim(decimal(v as nat))) == Some(v),
{
    lemma_decimal(v as nat);
    lemma_trim_digits(decimal(v as nat));
    assert(is_digit(decimal(v as nat)[0]));
}

/// `s` holds no line break.
pub open spec fn no_newline(s: Seq<char>) -> bool {
    forall|i: int| 0 <= i < s.len() ==> #[trigger] s[i] != '\n'
}

proof fn lemma_split_append(a: Seq<char>, b: Seq<char>)
    requires
        no_newline(b),
    ensures
        split_lines(a + seq!['\n'] + b) == split_lines(a).push(b),
    decreases b.len(),
{
    let t = a + seq!['\n'] + b;
    if b.len() == 0 {
        assert(t.drop_last() =~= a);
        assert(b =~= Seq::<char>::empty());
    } else {
        assert(t.drop_last() =~= a + seq!['\n'] + b.drop_last());
        assert(t.last() == b.last());
        lemma_split_append(a, b.drop_last());
        let p = split_lines(a).push(b.drop_last());
        assert(b.drop_last().push(b.last()) =~= b);
        assert(p.update(p.len() - 1, p.last().push(b.last())) =~~= split_lines(a).push(b));
    }
}

proof fn lemma_split_single(b: Seq<char>)
    requires
        no_newline(b),
    ensures
        split_lines(b) == seq![b],
    decreases b.len(),
{
    if b.len() > 0 {
        lemma_split_single(b.drop_last());
        let p = seq![b.drop_last()];
        assert(b.drop_last().push(b.last()) =~= b);
        assert(p.update(0, p.last().push(b.last())) =~~= seq![b]);
    } else {
        assert(b =~= Seq::<char>::empty());
    }
}

proof fn lemma_split_join(ls: Seq<Seq<char>>)
    requires
        ls.len() >= 1,
        forall|i: int| 0 <= i < ls.len() ==> no_newline(#[trigger] ls[i]),
    ensures
        split_lines(join_lines(ls)) == ls,
    decreases ls.len(),
{
    if ls.len() == 1 {
        lemma_split_single(ls[0]);
        assert(seq![ls[0]] =~= ls);
    } else {
        let init = ls.drop_last();
        assert forall|i: int| 0 <= i < init.len() implies no_newline(#[trigger] init[i]) by {
            assert(init[i] == ls[i]);
        }
        lemma_split_join(init);
        assert(no_newline(ls[ls.len() - 1]));
        lemma_split_append(join_lines(init), ls.last());
        assert(init.push(ls.last()) =~= ls);
    }
}

proof fn lemma_parsed_numerals(s: Seq<u32>)
    ensures
        parsed_lines(numerals(s)) == s,
    decreases s.len(),
{
    if s.len() > 0 {
        assert(numerals(s).drop_last() =~= numerals(s.drop_last()));
        lemma_parsed_numerals(s.drop_last());
        lemma_parse_decimal(s.last());
        assert(s.drop_last().push(s.last()) =~= s);
    }
}

/// Reading the stored text of a score list gives the list back.
pub proof fn lemma_parse_format_roundtrip(s: Seq<u32>)
    ensures
        parse_scores_spec(format_scores_spec(s)) == s,
{
    let ls = numerals(s);
    if s.len() == 0 {
        let e = Seq::<char>::empty();
        assert(ls.len() == 0);
        assert(format_scores_spec(s) == e);
        assert(split_lines(e) == seq![e]);
        assert(seq![e].drop_last() =~= Seq::<Seq<char>>::empty());
        assert(seq![e].last() == e);
        assert(trim_start(e) == e);
        assert(trim(e) == e);
        assert(parse_u32_spec(e) is None);
        assert(parsed_lines(seq![e]) == parsed_lines(Seq::<Seq<char>>::empty()));
        assert(s =~= Seq::<u32>::empty());
    } else {
        assert forall|i: int| 0 <= i < ls.len() implies no_newline(#[trigger] ls[i]) by {
            lemma_decimal(s[i] as nat);
            assert forall|j: int| 0 <= j < ls[i].len() implies #[trigger] ls[i][j] != '\n' by {
                assert(is_digit(ls[i][j]));
            }
        }
        lemma_split_join(ls);
        lemma_parsed_numerals(s);
    }
}

/// A saved high-score list loads back unchanged: the list that loading
/// gives (best first, at most `SCORES_KEEP`), once stored, loads as itself.
pub proof fn lemma_load_after_save(s: Seq<u32>)
    requires
        sorted_desc(s),
        s.len() <= SCORES_KEEP,
    ensures
        top_scores_spec(parse_scores_spec(format_scores_spec(s))) == s,
{
    lemma_parse_format_roundtrip(s);
    lemma_sort_desc_sorted_id(s);
}

/// The kept list is sorted, holds at most `SCORES_KEEP` scores, and is the
/// front of a sorted rearrangement of all the scores: none left out beats
/// one kept.
pub proof fn lemma_top_scores(s: Seq<u32>)
    ensures
        sorted_desc(top_scores_spec(s)),
        top_scores_spec(s).len() == if s.len() <= SCORES_KEEP {
            s.len()
        } else {
            SCORES_KEEP as nat
        },
        top_scores_spec(s).is_prefix_of(sort_desc(s)),
        sort_desc(s).to_multiset() == s.to_multiset(),
{
    lemma_sort_desc_perm(s);
    let t = top_scores_spec(s);
    assert(t.is_prefix_of(sort_desc(s))) by {
        assert(t =~= sort_desc(s).subrange(0, t.len() as int));
    }
}

} // verus!
