//! Text, numbers and clock readings in plain terms.
use crate::clock;
use crate::digits;
use crate::text;
use vstd::prelude::*;

verus! {

/// White space is the Unicode property, by code point.
pub proof fn law_white_space(c: char)
    ensures
        text::is_white(c) <==> {
            let v = c as u32;
            ||| 0x9 <= v <= 0xd
            ||| v == 0x20
            ||| v == 0x85
            ||| v == 0xa0
            ||| v == 0x1680
            ||| 0x2000 <= v <= 0x200a
            ||| v == 0x2028
            ||| v == 0x2029
            ||| v == 0x202f
            ||| v == 0x205f
            ||| v == 0x3000
        },
{
}

/// A text is blank if every character is white space.
pub proof fn law_blank(s: Seq<char>)
    ensures
        text::is_blank(s) <==> forall|i: int| 0 <= i < s.len() ==> text::is_white(#[trigger] s[i]),
{
}

/// What is cut off in front is white space, and what is left does not open with
/// any.
proof fn lemma_trim_start(s: Seq<char>)
    ensures
        text::trim_start(s).len() <= s.len(),
        text::trim_start(s) == s.skip(s.len() - text::trim_start(s).len()),
        forall|i: int|
            0 <= i < s.len() - text::trim_start(s).len() ==> text::is_white(#[trigger] s[i]),
        text::trim_start(s).len() > 0 ==> !text::is_white(text::trim_start(s)[0]),
    decreases s.len(),
{
    if s.len() > 0 && text::is_white(s[0]) {
        let rest = s.drop_first();
        lemma_trim_start(rest);
        let t = text::trim_start(s);
        assert(t == text::trim_start(rest));
        assert(s.skip(s.len() - t.len()) =~= rest.skip(rest.len() - t.len()));
        assert forall|i: int| 0 <= i < s.len() - t.len() implies text::is_white(#[trigger] s[i]) by {
            if i > 0 {
                assert(s[i] == rest[i - 1]);
            }
        }
    } else {
        assert(s.skip(0) =~= s);
    }
}

/// What is cut off behind is white space, and what is left does not close with
/// any.
proof fn lemma_trim_end(s: Seq<char>)
    ensures
        text::trim_end(s).len() <= s.len(),
        text::trim_end(s) == s.take(text::trim_end(s).len() as int),
        forall|i: int|
            text::trim_end(s).len() <= i < s.len() ==> text::is_white(#[trigger] s[i]),
        text::trim_end(s).len() > 0 ==> !text::is_white(text::trim_end(s).last()),
    decreases s.len(),
{
    if s.len() > 0 && text::is_white(s.last()) {
        let rest = s.drop_last();
        lemma_trim_end(rest);
        let t = text::trim_end(s);
        assert(t == text::trim_end(rest));
        assert(s.take(t.len() as int) =~= rest.take(t.len() as int));
        assert forall|i: int| t.len() <= i < s.len() implies text::is_white(#[trigger] s[i]) by {
            if i < rest.len() {
                assert(s[i] == rest[i]);
            }
        }
    } else {
        assert(s.take(s.len() as int) =~= s);
    }
}

/// Trimming leaves out white space at the two ends and nothing else: the text is
/// what was cut off in front, what is left, and what was cut off behind, in one
/// piece each. What is left neither opens nor closes with white space.
pub proof fn law_trim_cuts_only_the_ends(s: Seq<char>)
    ensures
        exists|lead: Seq<char>, tail: Seq<char>|
            {
                &&& #[trigger] (lead + text::trim(s) + tail) == s
                &&& forall|i: int| 0 <= i < lead.len() ==> text::is_white(#[trigger] lead[i])
                &&& forall|i: int| 0 <= i < tail.len() ==> text::is_white(#[trigger] tail[i])
            },
        text::trim(s).len() > 0 ==> !text::is_white(text::trim(s)[0]) && !text::is_white(
            text::trim(s).last(),
        ),
{
    let t = text::trim_start(s);
    let r = text::trim(s);
    lemma_trim_start(s);
    lemma_trim_end(t);
    let n = s.len() - t.len();
    let lead = s.take(n);
    let tail = t.skip(r.len() as int);
    assert(lead + r + tail =~= s);
    assert forall|i: int| 0 <= i < lead.len() implies text::is_white(#[trigger] lead[i]) by {
        assert(lead[i] == s[i]);
    }
    assert forall|i: int| 0 <= i < tail.len() implies text::is_white(#[trigger] tail[i]) by {
        assert(tail[i] == t[i + r.len()]);
    }
}

/// Trimming finds the text between white space again.
pub proof fn law_trim_gives_back(lead: Seq<char>, s: Seq<char>, tail: Seq<char>)
    requires
        forall|i: int| 0 <= i < lead.len() ==> text::is_white(#[trigger] lead[i]),
        forall|i: int| 0 <= i < tail.len() ==> text::is_white(#[trigger] tail[i]),
        s.len() > 0 ==> !text::is_white(s[0]) && !text::is_white(s.last()),
    ensures
        text::trim(lead + s + tail) == s,
{
    if s.len() > 0 {
        law_words_are_found_behind_white_space(lead, s + tail);
        assert(lead + s + tail =~= lead + (s + tail));
        lemma_trim_end_gives_back(s, tail);
    } else {
        let all = lead + s + tail;
        lemma_trim_start(all);
        let t = text::trim_start(all);
        if t.len() > 0 {
            assert(t[0] == all[all.len() - t.len()]);
            let k = all.len() - t.len();
            if k < lead.len() {
                assert(all[k] == lead[k]);
            } else {
                assert(all[k] == tail[k - lead.len()]);
            }
        }
        assert(t =~= Seq::<char>::empty());
        assert(text::trim_end(t) =~= s);
    }
}

/// White space behind is cut off.
proof fn lemma_trim_end_gives_back(s: Seq<char>, tail: Seq<char>)
    requires
        forall|i: int| 0 <= i < tail.len() ==> text::is_white(#[trigger] tail[i]),
        s.len() > 0,
        !text::is_white(s.last()),
    ensures
        text::trim_end(s + tail) == s,
    decreases tail.len(),
{
    if tail.len() > 0 {
        assert((s + tail).last() == tail[tail.len() - 1]);
        assert((s + tail).drop_last() =~= s + tail.drop_last());
        assert forall|i: int| 0 <= i < tail.drop_last().len() implies text::is_white(
            #[trigger] tail.drop_last()[i],
        ) by {
            assert(tail.drop_last()[i] == tail[i]);
        }
        lemma_trim_end_gives_back(s, tail.drop_last());
    } else {
        assert(s + tail =~= s);
    }
}

/// White space in front of a text is skipped, all of it and nothing else.
pub proof fn law_words_are_found_behind_white_space(lead: Seq<char>, s: Seq<char>)
    requires
        forall|i: int| 0 <= i < lead.len() ==> text::is_white(#[trigger] lead[i]),
        s.len() > 0 ==> !text::is_white(s[0]),
    ensures
        text::trim_start(lead + s) == s,
    decreases lead.len(),
{
    if lead.len() > 0 {
        assert((lead + s)[0] == lead[0]);
        assert((lead + s).drop_first() =~= lead.drop_first() + s);
        assert forall|i: int| 0 <= i < lead.drop_first().len() implies text::is_white(
            #[trigger] lead.drop_first()[i],
        ) by {
            assert(lead.drop_first()[i] == lead[i + 1]);
        }
        law_words_are_found_behind_white_space(lead.drop_first(), s);
    } else {
        assert(lead + s =~= s);
    }
}

/// A word of any length goes up to the white space that follows it.
pub proof fn law_words_end_at_white_space(word: Seq<char>, rest: Seq<char>)
    requires
        forall|i: int| 0 <= i < word.len() ==> !text::is_white(#[trigger] word[i]),
        rest.len() > 0 ==> text::is_white(rest[0]),
    ensures
        text::first_word(word + rest) == word,
    decreases word.len(),
{
    let s = word + rest;
    if word.len() > 0 {
        assert(s[0] == word[0]);
        assert(s.drop_first() =~= word.drop_first() + rest);
        assert forall|i: int| 0 <= i < word.drop_first().len() implies !text::is_white(
            #[trigger] word.drop_first()[i],
        ) by {
            assert(word.drop_first()[i] == word[i + 1]);
        }
        law_words_end_at_white_space(word.drop_first(), rest);
        assert(seq![s[0]] + word.drop_first() =~= word);
    } else {
        assert(s =~= rest);
        assert(text::first_word(s) =~= word);
    }
}

/// Lines: each ends at its line feed, one carriage return before that is left
/// out, and what follows the last line feed is a line if there is any of it.
/// Neither the length of a line nor the number of lines matters.
pub proof fn law_lines(line: Seq<char>, rest: Seq<char>)
    requires
        forall|i: int| 0 <= i < line.len() ==> #[trigger] line[i] != '\n',
    ensures
        line.len() == 0 || line.last() != '\r' ==> text::lines(line + seq!['\n'] + rest) == seq![
            line,
        ] + text::lines(rest),
        text::lines(line + seq!['\r', '\n'] + rest) == seq![line] + text::lines(rest),
        line.len() > 0 ==> text::lines(line) == seq![line],
        text::lines(Seq::<char>::empty()) == Seq::<Seq<char>>::empty(),
{
    let feed = seq!['\n'] + rest;
    let s = line + seq!['\n'] + rest;
    assert(s =~= line + feed);
    crate::framing::lemma_line_len(line, feed);
    assert(s.take(line.len() as int) =~= line);
    assert(s.skip(line.len() as int + 1) =~= rest);
    let cut = line.push('\r');
    let t = line + seq!['\r', '\n'] + rest;
    assert(t =~= cut + feed);
    assert forall|i: int| 0 <= i < cut.len() implies #[trigger] cut[i] != '\n' by {
        if i < line.len() {
            assert(cut[i] == line[i]);
        }
    }
    crate::framing::lemma_line_len(cut, feed);
    assert(t.take(cut.len() as int) =~= cut);
    assert(cut.drop_last() =~= line);
    assert(t.skip(cut.len() as int + 1) =~= rest);
    crate::framing::lemma_line_len(line, Seq::empty());
    assert(line + Seq::<char>::empty() =~= line);
}

/// A search finds the first place at which the pattern stands, and fails only
/// where it stands nowhere.
pub proof fn law_find_is_first<T>(s: Seq<T>, pat: Seq<T>)
    ensures
        match text::find(s, pat) {
            Some(i) => {
                &&& 0 <= i <= s.len() - pat.len()
                &&& s.subrange(i, i + pat.len()) == pat
                &&& forall|j: int| 0 <= j < i ==> #[trigger] s.subrange(j, j + pat.len()) != pat
            },
            None => forall|j: int|
                0 <= j <= s.len() - pat.len() ==> #[trigger] s.subrange(j, j + pat.len()) != pat,
        },
{
    match text::find(s, pat) {
        Some(i) => {
            assert(text::first_at(s, pat, i));
            assert forall|j: int| 0 <= j < i implies #[trigger] s.subrange(j, j + pat.len())
                != pat by {
                assert(!text::occurs_at(s, pat, j));
            }
        },
        None => {
            assert forall|j: int| 0 <= j <= s.len() - pat.len() implies #[trigger] s.subrange(
                j,
                j + pat.len(),
            ) != pat by {
                if s.subrange(j, j + pat.len()) == pat {
                    lemma_least(s, pat, j);
                }
            }
        },
    }
}

/// Where a pattern stands, it stands for a first time.
proof fn lemma_least<T>(s: Seq<T>, pat: Seq<T>, j: int)
    requires
        text::occurs_at(s, pat, j),
    ensures
        text::find(s, pat) is Some,
    decreases j,
{
    if forall|k: int| 0 <= k < j ==> !#[trigger] text::occurs_at(s, pat, k) {
        assert(text::first_at(s, pat, j));
    } else {
        let k = choose|k: int| 0 <= k < j && #[trigger] text::occurs_at(s, pat, k);
        lemma_least(s, pat, k);
    }
}

/// A text opens with a prefix exactly if it is the prefix and something behind
/// it, and closes with a suffix exactly if it is the suffix behind something.
pub proof fn law_prefix_and_suffix(s: Seq<char>, part: Seq<char>)
    ensures
        text::has_prefix(s, part) <==> exists|rest: Seq<char>| s == #[trigger] (part + rest),
        text::has_suffix(s, part) <==> exists|rest: Seq<char>| s == #[trigger] (rest + part),
{
    if text::has_prefix(s, part) {
        assert(s =~= part + s.skip(part.len() as int));
    }
    if text::has_suffix(s, part) {
        assert(s =~= s.take(s.len() - part.len()) + part);
    }
    if exists|rest: Seq<char>| s == #[trigger] (part + rest) {
        let rest = choose|rest: Seq<char>| s == #[trigger] (part + rest);
        assert(s.take(part.len() as int) =~= part);
    }
    if exists|rest: Seq<char>| s == #[trigger] (rest + part) {
        let rest = choose|rest: Seq<char>| s == #[trigger] (rest + part);
        assert(s.skip(s.len() - part.len()) =~= part);
    }
}

/// Lowering maps each character by itself: ASCII capitals to their small
/// letters, every other character to itself.
pub proof fn law_lowered(s: Seq<char>, i: int)
    requires
        0 <= i < s.len(),
    ensures
        text::lowered(s).len() == s.len(),
        0x41 <= s[i] as u32 <= 0x5a ==> text::lowered(s)[i] as u32 == s[i] as u32 + 0x20,
        !(0x41 <= s[i] as u32 <= 0x5a) ==> text::lowered(s)[i] == s[i],
{
}

/// A number in decimal is its digits, each in 0 to 9, with no zero in front but
/// for zero itself; read from the left they make up the number.
pub proof fn law_decimal_spells_the_number(n: nat)
    ensures
        digits::decimal(n).len() > 0,
        forall|i: int|
            0 <= i < digits::decimal(n).len() ==> 0x30 <= (#[trigger] digits::decimal(n)[i]) as u32
                <= 0x39,
        n > 0 ==> digits::decimal(n)[0] as u32 != 0x30,
        n == 0 ==> digits::decimal(n).len() == 1,
        digits::value(digits::decimal(n)) == n,
    decreases n,
{
    crate::framing::lemma_decimal(n);
    if n >= 10 {
        law_decimal_spells_the_number(n / 10);
    }
}

/// The value of digits grows digit by digit, however many there are.
pub proof fn law_value_grows_by_digits(s: Seq<char>, c: char)
    requires
        0x30 <= c as u32 <= 0x39,
    ensures
        digits::value(Seq::<char>::empty()) == 0,
        digits::value(s.push(c)) == 10 * digits::value(s) + (c as u32 - 0x30),
{
    assert(s.push(c).drop_last() =~= s);
}

/// What is read as a number: one or more decimal digits, with or without one
/// plus sign in front, up to what a machine word holds. Nothing else is.
pub proof fn law_numbers_are_read(s: Seq<char>)
    ensures
        ({
            let plain = s.len() > 0 && forall|i: int|
                0 <= i < s.len() ==> '0' <= #[trigger] s[i] <= '9';
            let signed = s.len() > 1 && s[0] == '+' && forall|i: int|
                1 <= i < s.len() ==> '0' <= #[trigger] s[i] <= '9';
            &&& plain ==> digits::parse_number(s) == if digits::value(s) <= usize::MAX {
                Some(digits::value(s))
            } else {
                None
            }
            &&& signed ==> digits::parse_number(s) == if digits::value(s.skip(1)) <= usize::MAX {
                Some(digits::value(s.skip(1)))
            } else {
                None
            }
            &&& !plain && !signed ==> digits::parse_number(s) is None
        }),
{
    if s.len() > 0 {
        assert(s.skip(1) =~= s.drop_first());
        let d = s.drop_first();
        assert forall|i: int| 0 <= i < d.len() implies #[trigger] d[i] == s[i + 1] by {}
        if s[0] == '+' {
            assert(!('0' <= s[0] <= '9'));
            if digits::all_digits(d) {
                assert forall|i: int| 1 <= i < s.len() implies '0' <= #[trigger] s[i] <= '9' by {
                    assert(s[i] == d[i - 1]);
                }
            }
        }
    }
}

/// Bytes in hexadecimal: two digits per byte, high half first, letters small.
pub proof fn law_hexadecimal(bytes: Seq<u8>, i: int)
    requires
        0 <= i < bytes.len(),
    ensures
        digits::hex(bytes).len() == 2 * bytes.len(),
        ({
            let high = bytes[i] as int / 16;
            let low = bytes[i] as int % 16;
            &&& digits::hex(bytes)[2 * i] as u32 == if high < 10 {
                0x30 + high
            } else {
                0x57 + high
            }
            &&& digits::hex(bytes)[2 * i + 1] as u32 == if low < 10 {
                0x30 + low
            } else {
                0x57 + low
            }
        }),
{
}

/// A clock reading counts in full, as far as 64 bits go; a clock before the
/// epoch reads zero.
pub proof fn law_readings(ms: u128)
    ensures
        clock::low_bits(ms) as int == ms as int % 0x1_0000_0000_0000_0000,
        clock::reading(Some(ms)) as int == ms as int % 0x1_0000_0000_0000_0000,
        clock::reading(None) == 0,
        ms <= u64::MAX ==> clock::reading(Some(ms)) == ms && clock::low_bits(ms) == ms,
{
}

} // verus!
