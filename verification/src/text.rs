use vstd::prelude::*;
use humansize::file_size_opts;
use humansize::FileSize;
use vstd::utf8::is_ascii_chars;

verus! {

/// The character of a decimal digit.
pub open spec fn digit(n: nat) -> char
    recommends
        n < 10,
{
    (n + '0' as nat) as char
}

/// A number in decimal notation, without leading zeros.
pub open spec fn decimal(n: nat) -> Seq<char>
    decreases n,
{
    if n < 10 {
        seq![digit(n)]
    } else {
        decimal(n / 10).push(digit(n % 10))
    }
}

fn digit_text(n: u64) -> (text: &'static str)
    requires
        n < 10,
    ensures
        text@ == seq![digit(n as nat)],
{
    proof {
        reveal_strlit("0");
        reveal_strlit("1");
        reveal_strlit("2");
        reveal_strlit("3");
        reveal_strlit("4");
        reveal_strlit("5");
        reveal_strlit("6");
        reveal_strlit("7");
        reveal_strlit("8");
        reveal_strlit("9");
    }
    match n {
        0 => "0",
        1 => "1",
        2 => "2",
        3 => "3",
        4 => "4",
        5 => "5",
        6 => "6",
        7 => "7",
        8 => "8",
        _ => "9",
    }
}

/// A number in decimal notation.
pub fn decimal_text(n: u64) -> (text: String)
    ensures
        text@ == decimal(n as nat),
    decreases n,
{
    if n < 10 {
        String::from_str(digit_text(n))
    } else {
        let mut text = decimal_text(n / 10);
        text.append(digit_text(n % 10));
        assert(text@ =~= decimal(n as nat));
        text
    }
}

/// The number that a text of digits stands for.
pub open spec fn number_in(digits: Seq<char>) -> nat
    decreases digits.len(),
{
    if digits.len() == 0 {
        0
    } else {
        10 * number_in(digits.drop_last()) + (digits.last() as nat - '0' as nat) as nat
    }
}

/// A number in decimal notation consists of digits, reads back as the number, and has no leading
/// zero unless it is a single digit.
pub proof fn law_decimals_read_back(n: nat)
    ensures
        number_in(decimal(n)) == n,
        decimal(n).len() > 0,
        forall|i: int| 0 <= i < decimal(n).len() ==> '0' <= #[trigger] decimal(n)[i] <= '9',
        decimal(n).len() > 1 ==> decimal(n)[0] != '0',
    decreases n,
{
    if n < 10 {
        assert(seq![digit(n)].drop_last() =~= Seq::empty());
        assert(number_in(seq![digit(n)].drop_last()) == 0);
        assert(seq![digit(n)].last() == digit(n));
    } else {
        law_decimals_read_back(n / 10);
        let shorter = decimal(n / 10);
        assert(decimal(n).drop_last() =~= shorter);
        assert(n == 10 * (n / 10) + n % 10);
        assert(decimal(n)[0] == shorter[0]);
        if shorter.len() == 1 {
            assert(shorter.drop_last() =~= Seq::empty());
            assert(number_in(shorter.drop_last()) == 0);
            assert(number_in(shorter) == (shorter.last() as nat - '0' as nat) as nat);
        }
    }
}

/// A number is written as a text of digits that reads back as the number.
pub proof fn law_numbers_are_written_in_decimal(n: u64, text: String)
    requires
        call_ensures(decimal_text, (n,), text),
    ensures
        number_in(text@) == n,
        text@.len() > 0,
        forall|i: int| 0 <= i < text@.len() ==> '0' <= #[trigger] text@[i] <= '9',
        text@.len() > 1 ==> text@[0] != '0',
{
    law_decimals_read_back(n as nat);
}

/// Whether a text ends with the given suffix.
pub fn ends_with(text: &str, suffix: &str) -> (ends: bool)
    ensures
        ends == suffix@.is_suffix_of(text@),
{
    let text_len = text.unicode_len();
    let suffix_len = suffix.unicode_len();
    if text_len < suffix_len {
        return false;
    }
    let start: usize = text_len - suffix_len;
    let mut i: usize = 0;
    while i < suffix_len
        invariant
            i <= suffix_len,
            suffix_len == suffix@.len(),
            text_len == text@.len(),
            start == text_len - suffix_len,
            forall|k: int| 0 <= k < i ==> suffix@[k] == text@[start + k],
        decreases suffix_len - i,
    {
        if suffix.get_char(i) != text.get_char(start + i) {
            assert(text@.subrange(start as int, text_len as int)[i as int] != suffix@[i as int]);
            return false;
        }
        i += 1;
    }
    assert(text@.subrange(start as int, text_len as int) =~= suffix@);
    true
}

/// What `str::to_lowercase` makes of a text.
pub uninterp spec fn lowercase(text: Seq<char>) -> Seq<char>;

/// The lower case of an ASCII character.
pub open spec fn ascii_lowercase(c: char) -> char {
    if 'A' <= c <= 'Z' {
        (c as u32 + 32) as char
    } else {
        c
    }
}

/// Calls `str::to_lowercase`.
///
/// Claimed of it: the result depends on the text alone, and of ASCII text it changes the letters
/// from `A` to `Z` only, each to its lower case. Beyond ASCII the result is left to the name.
#[verifier::external_body]
pub(crate) fn lowercase_text(text: &str) -> (lower: String)
    ensures
        lower@ == lowercase(text@),
        is_ascii_chars(text@) ==> lower@ == text@.map_values(|c: char| ascii_lowercase(c)),
{
    text.to_lowercase()
}

/// A text in lower case.
pub open spec fn lowered(text: Seq<char>) -> Seq<char> {
    if is_ascii_chars(text) {
        text.map_values(|c: char| ascii_lowercase(c))
    } else {
        lowercase(text)
    }
}

/// In ASCII text the lower case changes the letters from `A` to `Z` and nothing else: each becomes
/// the letter 32 places on. Other text becomes what `str::to_lowercase` makes of it.
pub proof fn law_lower_case_of_ascii(text: Seq<char>)
    ensures
        is_ascii_chars(text) ==> {
            &&& lowered(text).len() == text.len()
            &&& forall|i: int|
                0 <= i < text.len() ==> #[trigger] lowered(text)[i] as int == if 'A' <= text[i]
                    && text[i] <= 'Z' {
                    text[i] as int + 32
                } else {
                    text[i] as int
                }
        },
        !is_ascii_chars(text) ==> lowered(text) == lowercase(text),
{
    if is_ascii_chars(text) {
        assert forall|i: int| 0 <= i < text.len() implies #[trigger] lowered(text)[i] as int
            == if 'A' <= text[i] && text[i] <= 'Z' {
            text[i] as int + 32
        } else {
            text[i] as int
        } by {
            assert(lowered(text)[i] == ascii_lowercase(text[i]));
        }
    }
}

/// A number of bytes as `humansize` writes it with binary units.
pub uninterp spec fn binary_size(size: u64) -> Seq<char>;

/// Calls `humansize::FileSize::file_size` with the options `BINARY`.
///
/// Claimed of it: the text depends on the number alone, and below one kibibyte it is the number
/// and the unit `B`. For an unsigned number the call never fails.
#[verifier::external_body]
pub(crate) fn human_size(size: u64) -> (text: String)
    ensures
        text@ == binary_size(size),
        size < 1024 ==> text@ == decimal(size as nat) + " B"@,
{
    size.file_size(file_size_opts::BINARY).unwrap()
}

/// A number of bytes as results show it.
pub open spec fn size_text(size: u64) -> Seq<char> {
    if size < 1024 {
        decimal(size as nat) + " B"@
    } else {
        binary_size(size)
    }
}

/// Below one kibibyte a size is shown as the number of bytes, in decimal, and the unit `B`; from
/// there on as `humansize` writes it.
pub proof fn law_sizes_are_shown(size: u64)
    ensures
        size < 1024 ==> size_text(size) == decimal(size as nat) + seq![' ', 'B'],
        size >= 1024 ==> size_text(size) == binary_size(size),
{
    reveal_strlit(" B");
    assert(" B"@ =~= seq![' ', 'B']);
}

/// What a list of texts says.
pub open spec fn text_views(texts: Seq<String>) -> Seq<Seq<char>> {
    texts.map_values(|text: String| text@)
}

/// The texts one after the other, with a comma and a space between them.
pub open spec fn joined(texts: Seq<Seq<char>>) -> Seq<char>
    decreases texts.len(),
{
    if texts.len() == 0 {
        Seq::empty()
    } else if texts.len() == 1 {
        texts[0]
    } else {
        joined(texts.drop_last()) + ", "@ + texts.last()
    }
}

/// A list of texts in brackets.
pub open spec fn bracketed(texts: Seq<Seq<char>>) -> Seq<char> {
    "["@ + joined(texts) + "]"@
}

/// Writes the texts one after the other, in brackets.
pub fn bracketed_text(texts: &Vec<String>) -> (text: String)
    ensures
        text@ == bracketed(text_views(texts@)),
{
    let ghost views = text_views(texts@);
    let mut text = String::from_str("[");
    assert(views.take(0) =~= Seq::empty());
    assert(text@ =~= "["@ + joined(views.take(0)));
    let mut i: usize = 0;
    while i < texts.len()
        invariant
            i <= texts.len(),
            views == text_views(texts@),
            text@ == "["@ + joined(views.take(i as int)),
        decreases texts.len() - i,
    {
        if i > 0 {
            text.append(", ");
        }
        text.append(texts[i].as_str());
        proof {
            assert(views.take(i + 1).drop_last() =~= views.take(i as int));
            assert(views.take(i + 1).last() == views[i as int]);
            assert(text@ =~= "["@ + joined(views.take(i + 1)));
        }
        i += 1;
    }
    assert(views.take(i as int) =~= views);
    text.append("]");
    text
}

/// A text in quotes, as the formatting with `{:?}` writes it.
pub uninterp spec fn quoted(text: Seq<char>) -> Seq<char>;

/// Calls `format!` with `{:?}` on a text.
///
/// Claimed of it: the result depends on the text alone. Which characters are escaped, and how, is
/// left to the name.
#[verifier::external_body]
fn quoted_text(text: &str) -> (quotation: String)
    ensures
        quotation@ == quoted(text@),
{
    format!("{:?}", text)
}

/// The texts, each in quotes.
pub open spec fn all_quoted(texts: Seq<Seq<char>>) -> Seq<Seq<char>> {
    texts.map_values(|text: Seq<char>| quoted(text))
}

/// Puts each of the texts in quotes.
pub fn quoted_texts(texts: &Vec<String>) -> (quotations: Vec<String>)
    ensures
        text_views(quotations@) == all_quoted(text_views(texts@)),
{
    let ghost all = all_quoted(text_views(texts@));
    let mut quotations: Vec<String> = Vec::new();
    let mut i: usize = 0;
    while i < texts.len()
        invariant
            i <= texts.len(),
            all == all_quoted(text_views(texts@)),
            text_views(quotations@) == all.take(i as int),
        decreases texts.len() - i,
    {
        let quotation = quoted_text(texts[i].as_str());
        let ghost so_far = quotations@;
        quotations.push(quotation);
        proof {
            assert(text_views(quotations@) =~= text_views(so_far).push(quotation@));
            assert(all.take(i + 1) =~= all.take(i as int).push(all[i as int]));
        }
        i += 1;
    }
    assert(all.take(i as int) =~= all);
    quotations
}

/// A list in brackets holds every text once, in order, with a comma and a space before each but the
/// first. The result are the parts between the brackets.
pub proof fn law_lists_hold_every_text(texts: Seq<Seq<char>>) -> (parts: Seq<Seq<char>>)
    ensures
        bracketed(texts) == seq!['['] + parts.flatten() + seq![']'],
        parts.len() == texts.len(),
        forall|i: int|
            0 <= i < texts.len() ==> #[trigger] parts[i] == if i == 0 {
                texts[i]
            } else {
                seq![',', ' '] + texts[i]
            },
{
    reveal_strlit("[");
    reveal_strlit("]");
    assert("["@ =~= seq!['[']);
    assert("]"@ =~= seq![']']);
    lemma_joined_parts(texts)
}

proof fn lemma_joined_parts(texts: Seq<Seq<char>>) -> (parts: Seq<Seq<char>>)
    ensures
        joined(texts) == parts.flatten(),
        parts.len() == texts.len(),
        forall|i: int|
            0 <= i < texts.len() ==> #[trigger] parts[i] == if i == 0 {
                texts[i]
            } else {
                seq![',', ' '] + texts[i]
            },
    decreases texts.len(),
{
    reveal_strlit(", ");
    assert(", "@ =~= seq![',', ' ']);
    if texts.len() == 0 {
        Seq::empty()
    } else {
        let shorter = texts.drop_last();
        let before = lemma_joined_parts(shorter);
        let part = if texts.len() == 1 {
            texts[0]
        } else {
            seq![',', ' '] + texts.last()
        };
        let parts = before.push(part);
        before.lemma_flatten_push(part);
        assert(joined(texts) =~= parts.flatten());
        assert forall|i: int| 0 <= i < texts.len() implies #[trigger] parts[i] == if i == 0 {
            texts[i]
        } else {
            seq![',', ' '] + texts[i]
        } by {
            if i < shorter.len() {
                assert(parts[i] == before[i]);
                assert(shorter[i] == texts[i]);
            }
        }
        parts
    }
}

/// Every text is put in quotes, each in its place.
pub proof fn law_every_text_is_quoted(texts: Seq<Seq<char>>)
    ensures
        all_quoted(texts).len() == texts.len(),
        forall|i: int|
            0 <= i < texts.len() ==> #[trigger] all_quoted(texts)[i] == quoted(texts[i]),
{
}

/// What a list of texts says is what each of them says, in its place.
pub proof fn law_text_views(texts: Seq<String>)
    ensures
        text_views(texts).len() == texts.len(),
        forall|i: int| 0 <= i < texts.len() ==> #[trigger] text_views(texts)[i] == texts[i]@,
{
}

/// Each part of a text occurs in it. The result is what stands before the part, and what after it.
pub(crate) proof fn lemma_part_occurs(parts: Seq<Seq<char>>, i: int) -> (around: (
    Seq<char>,
    Seq<char>,
))
    requires
        0 <= i < parts.len(),
    ensures
        parts.flatten() == around.0 + parts[i] + around.1,
    decreases parts.len(),
{
    let rest = parts.drop_first();
    if i == 0 {
        let around = (Seq::<char>::empty(), rest.flatten());
        assert(parts.flatten() =~= around.0 + parts[i] + around.1);
        around
    } else {
        let further = lemma_part_occurs(rest, i - 1);
        let around = (parts.first() + further.0, further.1);
        assert(parts.flatten() =~= around.0 + parts[i] + around.1);
        around
    }
}

} // verus!
