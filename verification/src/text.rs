//! Numbers and lists as text, and what the backends ask of names and paths.

use vstd::prelude::*;

verus! {

/// The character of a decimal digit.
pub open spec fn digit(d: nat) -> char {
    (('0' as nat) + d) as char
}

/// A natural number in decimal, without leading zeros.
pub open spec fn decimal(n: nat) -> Seq<char>
    decreases n,
{
    if n < 10 {
        seq![digit(n)]
    } else {
        decimal(n / 10).push(digit(n % 10))
    }
}

/// An integer in decimal, with a minus sign where it is negative.
pub open spec fn integer(i: int) -> Seq<char> {
    if i < 0 {
        seq!['-'] + decimal((-i) as nat)
    } else {
        decimal(i as nat)
    }
}

fn digit_str(d: u64) -> (r: &'static str)
    requires
        d < 10,
    ensures
        r@ == seq![digit(d as nat)],
{
    proof {
        reveal_strlit("0");
        reveal_strlit("1");
        reveal_strlit("2");
        reveal_strlit("3");
        reveal_strlit("4");
        reveal_strlit("5");
        reveal_strlit("6");
        reveal_strlit("7");
        reveal_strlit("8");
        reveal_strlit("9");
    }
    match d {
        0 => "0",
        1 => "1",
        2 => "2",
        3 => "3",
        4 => "4",
        5 => "5",
        6 => "6",
        7 => "7",
        8 => "8",
        _ => "9",
    }
}

fn push_decimal(out: &mut String, n: u64)
    ensures
        final(out)@ == old(out)@ + decimal(n as nat),
    decreases n,
{
    if n < 10 {
        out.append(digit_str(n));
    } else {
        push_decimal(out, n / 10);
        out.append(digit_str(n % 10));
        assert(out@ =~= old(out)@ + decimal(n as nat));
    }
}

/// Appends an index or a count.
pub fn push_usize(out: &mut String, n: usize)
    ensures
        final(out)@ == old(out)@ + integer(n as int),
{
    push_decimal(out, n as u64);
}

/// Appends a status code or a dimension.
pub fn push_i32(out: &mut String, i: i32)
    ensures
        final(out)@ == old(out)@ + integer(i as int),
{
    if i < 0 {
        proof {
            reveal_strlit("-");
        }
        out.append("-");
        let m: i64 = -(i as i64);
        push_decimal(out, m as u64);
        assert(out@ =~= old(out)@ + integer(i as int));
    } else {
        push_decimal(out, i as u64);
    }
}

/// Items one after the other, with a comma and a space between them.
pub open spec fn joined(items: Seq<Seq<char>>) -> Seq<char>
    decreases items.len(),
{
    if items.len() == 0 {
        seq![]
    } else if items.len() == 1 {
        items[0]
    } else {
        joined(items.drop_last()) + ", "@ + items.last()
    }
}

/// A list in square brackets.
pub open spec fn list(items: Seq<Seq<char>>) -> Seq<char> {
    "["@ + joined(items) + "]"@
}

/// A list of integers.
pub open spec fn int_list(v: Seq<i32>) -> Seq<char> {
    list(Seq::new(v.len(), |i: int| integer(v[i] as int)))
}

/// Appends a list of integers.
pub fn push_int_list(out: &mut String, v: &[i32])
    ensures
        final(out)@ == old(out)@ + int_list(v@),
{
    let ghost items = Seq::new(v@.len(), |i: int| integer(v@[i] as int));
    out.append("[");
    let mut i: usize = 0;
    assert(out@ =~= old(out)@ + "["@ + joined(items.take(0)));
    while i < v.len()
        invariant
            i <= v.len(),
            items == Seq::new(v@.len(), |i: int| integer(v@[i] as int)),
            out@ == old(out)@ + "["@ + joined(items.take(i as int)),
        decreases v.len() - i,
    {
        if i > 0 {
            out.append(", ");
        }
        push_i32(out, v[i]);
        proof {
            assert(items.take(i + 1).drop_last() =~= items.take(i as int));
            assert(items.take(i + 1).last() == items[i as int]);
            assert(out@ =~= old(out)@ + "["@ + joined(items.take(i + 1)));
        }
        i = i + 1;
    }
    out.append("]");
    assert(items.take(v@.len() as int) =~= items);
    assert(out@ =~= old(out)@ + int_list(v@));
}

/// A decimal digit.
pub open spec fn is_digit(c: char) -> bool {
    '0' <= c <= '9'
}

/// Some character is a decimal digit.
pub open spec fn has_digit(s: Seq<char>) -> bool {
    exists|i: int| 0 <= i < s.len() && is_digit(#[trigger] s[i])
}

/// The number that the digits of a text spell, whatever stands between them.
pub open spec fn spelled(s: Seq<char>) -> nat
    decreases s.len(),
{
    if s.len() == 0 {
        0
    } else if is_digit(s.last()) {
        10 * spelled(s.drop_last()) + (s.last() as nat - '0' as nat) as nat
    } else {
        spelled(s.drop_last())
    }
}

/// The number in a name: none where it holds no digit, or where the digits
/// spell more than 64 bits can hold.
pub open spec fn number_in(s: Seq<char>) -> Option<u64> {
    if has_digit(s) && spelled(s) <= u64::MAX {
        Some(spelled(s) as u64)
    } else {
        None
    }
}

proof fn lemma_spelled_grows(s: Seq<char>, i: int)
    requires
        0 <= i <= s.len(),
    ensures
        spelled(s.take(i)) <= spelled(s),
    decreases s.len() - i,
{
    if i == s.len() {
        assert(s.take(i) =~= s);
    } else {
        assert(s.take(i + 1).drop_last() =~= s.take(i));
        lemma_spelled_grows(s, i + 1);
    }
}

proof fn lemma_running_value(s: Seq<char>, values: Seq<nat>, n: int)
    requires
        values.len() == s.len() + 1,
        values[0] == 0,
        forall|k: int|
            0 <= k < s.len() ==> values[k + 1] == (if '0' <= #[trigger] s[k] <= '9' {
                10 * values[k] + (s[k] as int - '0' as int)
            } else {
                values[k] as int
            }),
        0 <= n <= s.len(),
    ensures
        spelled(s.take(n)) == values[n],
    decreases n,
{
    if n > 0 {
        lemma_running_value(s, values, n - 1);
        assert(s.take(n).drop_last() =~= s.take(n - 1));
        assert(s.take(n).last() == s[n - 1]);
    }
}

/// A name is read from left to right: each digit multiplies what was read by ten
/// and adds itself, everything else is passed over. What is read in the end is
/// the number in the name, where there was a digit and 64 bits hold it.
pub proof fn digits_are_read_in_order(s: Seq<char>, values: Seq<nat>)
    requires
        values.len() == s.len() + 1,
        values[0] == 0,
        forall|k: int|
            0 <= k < s.len() ==> values[k + 1] == (if '0' <= #[trigger] s[k] <= '9' {
                10 * values[k] + (s[k] as int - '0' as int)
            } else {
                values[k] as int
            }),
    ensures
        number_in(s) is Some <==> (exists|k: int| 0 <= k < s.len() && '0' <= #[trigger] s[k] <= '9')
            && values[s.len() as int] <= 0xffff_ffff_ffff_ffff,
        number_in(s) matches Some(n) ==> n == values[s.len() as int],
{
    lemma_running_value(s, values, s.len() as int);
    assert(s.take(s.len() as int) =~= s);
    if exists|k: int| 0 <= k < s.len() && '0' <= #[trigger] s[k] <= '9' {
        let k = choose|k: int| 0 <= k < s.len() && '0' <= #[trigger] s[k] <= '9';
        assert(is_digit(s[k]));
    }
    if has_digit(s) {
        let k = choose|k: int| 0 <= k < s.len() && is_digit(#[trigger] s[k]);
        assert('0' <= s[k] <= '9');
    }
}

proof fn lemma_decimal_digits(n: nat)
    ensures
        decimal(n).len() > 0,
        spelled(decimal(n)) == n,
        forall|k: int| 0 <= k < decimal(n).len() ==> '0' <= #[trigger] decimal(n)[k] <= '9',
        decimal(n)[0] == '0' <==> n == 0,
    decreases n,
{
    if n < 10 {
        assert(decimal(n).drop_last() =~= seq![]);
        assert(spelled(seq![]) == 0);
        assert(decimal(n).last() == digit(n));
    } else {
        lemma_decimal_digits(n / 10);
        assert(decimal(n).drop_last() =~= decimal(n / 10));
        assert(decimal(n).last() == digit(n % 10));
    }
}

/// A number is written in digits that spell it, the first of them no zero unless
/// the number is; a negative one has a minus sign before them, and no other.
pub proof fn numbers_are_written_in_full(i: int, values: Seq<nat>)
    requires
        values.len() == integer(i).len() + 1,
        values[0] == 0,
        forall|k: int|
            0 <= k < integer(i).len() ==> values[k + 1] == (if '0' <= #[trigger] integer(i)[k]
                <= '9' {
                10 * values[k] + (integer(i)[k] as int - '0' as int)
            } else {
                values[k] as int
            }),
    ensures
        values[integer(i).len() as int] == (if i < 0 {
            -i
        } else {
            i
        }),
        i < 0 ==> integer(i).len() > 1 && integer(i)[0] == '-' && '1' <= integer(i)[1] <= '9',
        i == 0 ==> integer(i) == seq!['0'],
        i > 0 ==> integer(i).len() > 0 && '1' <= integer(i)[0] <= '9',
        forall|k: int|
            (i < 0 ==> k > 0) && 0 <= k < integer(i).len() ==> '0' <= #[trigger] integer(i)[k]
                <= '9',
{
    let m = (if i < 0 {
        -i
    } else {
        i
    }) as nat;
    lemma_decimal_digits(m);
    lemma_running_value(integer(i), values, integer(i).len() as int);
    assert(integer(i).take(integer(i).len() as int) =~= integer(i));
    if i < 0 {
        assert forall|k: int| 0 < k < integer(i).len() implies '0' <= #[trigger] integer(i)[k]
            <= '9' by {
            assert(integer(i)[k] == decimal(m)[k - 1]);
        }
        assert(integer(i)[1] == decimal(m)[0]);
        lemma_spelled_skips('-', decimal(m));
    }
}

proof fn lemma_spelled_skips(c: char, s: Seq<char>)
    requires
        !is_digit(c),
    ensures
        spelled(seq![c] + s) == spelled(s),
    decreases s.len(),
{
    let t = seq![c] + s;
    if s.len() == 0 {
        assert(t.drop_last() =~= s);
    } else {
        assert(t.drop_last() =~= seq![c] + s.drop_last());
        assert(t.last() == s.last());
        lemma_spelled_skips(c, s.drop_last());
    }
}

/// A list begins and ends in brackets, and what comes after its first item comes
/// after a comma and a space.
pub proof fn lists_separate_by_commas(items: Seq<Seq<char>>, item: Seq<char>)
    ensures
        list(Seq::empty()) == "["@ + "]"@,
        list(seq![item]) == "["@ + item + "]"@,
        list(items) == "["@ + joined(items) + "]"@,
        items.len() > 0 ==> joined(items.push(item)) == joined(items) + ", "@ + item,
        joined(seq![item]) == item,
{
    assert(items.push(item).drop_last() =~= items);
    assert(list(Seq::empty()) =~= "["@ + "]"@);
}

/// A list of integers lists each of them, in order.
pub proof fn integers_are_listed(v: Seq<i32>, items: Seq<Seq<char>>)
    requires
        items.len() == v.len(),
        forall|k: int| 0 <= k < v.len() ==> #[trigger] items[k] == integer(v[k] as int),
    ensures
        int_list(v) == list(items),
{
    assert(Seq::new(v.len(), |i: int| integer(v[i] as int)) =~= items);
}

/// The characters of a text.
pub fn characters(s: &str) -> (r: Vec<char>)
    ensures
        r@ == s@,
{
    let mut out: Vec<char> = Vec::new();
    for c in it: s.chars()
        invariant
            it.seq() == s@,
            out@ == s@.take(it.index() as int),
    {
        out.push(c);
        assert(out@ =~= s@.take(it.index() + 1));
    }
    assert(s@.take(s@.len() as int) =~= s@);
    out
}

/// The number in a name.
pub fn number_of(s: &str) -> (r: Option<u64>)
    ensures
        r == number_in(s@),
{
    let chars = characters(s);
    let mut seen: bool = false;
    let mut value: u64 = 0;
    let mut i: usize = 0;
    while i < chars.len()
        invariant
            chars@ == s@,
            i <= chars.len(),
            seen == has_digit(s@.take(i as int)),
            value == spelled(s@.take(i as int)),
        decreases chars.len() - i,
    {
        let c = chars[i];
        let ghost before = s@.take(i as int);
        let ghost after = s@.take(i + 1);
        proof {
            assert(after.drop_last() =~= before);
            assert(after.last() == c);
            if seen {
                let k = choose|k: int| 0 <= k < before.len() && is_digit(#[trigger] before[k]);
                assert(is_digit(after[k]));
            }
        }
        if '0' <= c && c <= '9' {
            let d: u64 = (c as u64) - ('0' as u64);
            if value > u64::MAX / 10 || 10 * value > u64::MAX - d {
                proof {
                    lemma_spelled_grows(s@, i + 1);
                }
                return None;
            }
            value = 10 * value + d;
            seen = true;
            assert(is_digit(after[i as int]));
        } else {
            proof {
                if has_digit(after) {
                    let k = choose|k: int| 0 <= k < after.len() && is_digit(#[trigger] after[k]);
                    assert(is_digit(before[k]));
                }
            }
        }
        i = i + 1;
    }
    assert(s@.take(s@.len() as int) =~= s@);
    if seen {
        Some(value)
    } else {
        None
    }
}

/// Whether a text ends in another.
pub fn ends_in(s: &str, suffix: &str) -> (r: bool)
    ensures
        r == suffix@.is_suffix_of(s@),
{
    let a = characters(s);
    let b = characters(suffix);
    if b.len() > a.len() {
        return false;
    }
    let start: usize = a.len() - b.len();
    let mut i: usize = 0;
    while i < b.len()
        invariant
            a@ == s@,
            b@ == suffix@,
            start + b.len() == a.len(),
            i <= b.len(),
            forall|k: int| 0 <= k < i ==> a@[start + k] == #[trigger] b@[k],
        decreases b.len() - i,
    {
        if a[start + i] != b[i] {
            proof {
                let tail = s@.subrange(start as int, s@.len() as int);
                assert(tail[i as int] != suffix@[i as int]);
            }
            return false;
        }
        i = i + 1;
    }
    assert(s@.subrange(start as int, s@.len() as int) =~= suffix@);
    true
}

/// The texts of a list of strings.
pub open spec fn str_texts(v: Seq<&str>) -> Seq<Seq<char>> {
    Seq::new(v.len(), |i: int| v[i]@)
}

/// How std writes a list of strings for debugging: in brackets, each in quotes,
/// with escapes.
pub uninterp spec fn debug_strings(items: Seq<Seq<char>>) -> Seq<char>;

/// Calls std's `format!` with `{:?}` on a list of strings. The text that it gives
/// is named and not spelt out: which characters std escapes is a matter of
/// tables. What is claimed is that it depends on the strings alone.
#[verifier::external_body]
pub(crate) fn debug_list(items: &Vec<&str>) -> (r: String)
    ensures
        r@ == debug_strings(str_texts(items@)),
{
    format!("{:?}", items)
}

/// A text with a NUL in it cannot be handed to a C interface.
pub open spec fn has_nul(s: Seq<char>) -> bool {
    s.contains('\0')
}

/// Whether there is a NUL in a text.
pub fn contains_nul(s: &str) -> (r: bool)
    ensures
        r == has_nul(s@),
{
    let a = characters(s);
    let mut i: usize = 0;
    while i < a.len()
        invariant
            a@ == s@,
            i <= a.len(),
            forall|k: int| 0 <= k < i ==> #[trigger] s@[k] != '\0',
        decreases a.len() - i,
    {
        if a[i] == '\0' {
            assert(s@[i as int] == '\0');
            return true;
        }
        i = i + 1;
    }
    false
}

/// The name of a file, with nothing in it that means something in a path.
pub open spec fn is_plain(file: Seq<char>) -> bool {
    &&& file.len() > 0
    &&& forall|i: int|
        0 <= i < file.len() ==> #[trigger] file[i] != '/' && file[i] != '\\' && file[i] != ':'
}

/// A path that Windows takes word for word.
pub open spec fn is_verbatim(path: Seq<char>) -> bool {
    "\\\\?\\"@.is_prefix_of(path)
}

/// A path to a file in a directory: the directory, then the file, with a
/// separator in between where the directory does not bring one. Windows has a
/// separator of its own, and has none after the letter of a drive.
pub open spec fn is_path_to(path: Seq<char>, dir: Seq<char>, file: Seq<char>) -> bool {
    if dir.len() == 0 {
        path == file
    } else {
        ||| path == dir + "/"@ + file
        ||| path == dir + "\\"@ + file
        ||| path == dir + file && (dir.last() == '/' || dir.last() == '\\' || dir.last() == ':')
    }
}

/// Calls std's `Path::join`, and takes the path as `display` shows it. What is
/// claimed is that the path is the directory with the file adjoined; nothing is
/// claimed of verbatim directories, which std normalises. Which separator it
/// takes is the platform's affair.
#[verifier::external_body]
pub(crate) fn join_path(dir: &str, file: &str) -> (r: String)
    requires
        is_plain(file@),
    ensures
        is_verbatim(dir@) || is_path_to(r@, dir@, file@),
{
    std::path::Path::new(dir).join(file).display().to_string()
}

} // verus!
