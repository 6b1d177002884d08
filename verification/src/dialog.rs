//! What the dialogs decide: deletion questions, rename headings, which names may be
//! confirmed, and the numbers read from settings fields.

use vstd::prelude::*;
use crate::text::{chars_of, decimal, digit_char};

verus! {

/// A deletion waiting for the user's confirmation.
#[derive(Debug, Clone)]
pub enum PendingDelete {
    Chapter(String),
    Tale(String, String),
    Material(String),
}

pub enum PendingDeleteView {
    Chapter(Seq<char>),
    Tale(Seq<char>, Seq<char>),
    Material(Seq<char>),
}

impl View for PendingDelete {
    type V = PendingDeleteView;

    open spec fn view(&self) -> PendingDeleteView {
        match self {
            PendingDelete::Chapter(n) => PendingDeleteView::Chapter(n@),
            PendingDelete::Tale(c, n) => PendingDeleteView::Tale(c@, n@),
            PendingDelete::Material(n) => PendingDeleteView::Material(n@),
        }
    }
}

/// The question put to the user: which chapter, tale (with its chapter) or material is
/// about to be deleted, and that this cannot be undone.
pub open spec fn message_spec(p: PendingDeleteView) -> Seq<char> {
    match p {
        PendingDeleteView::Chapter(name) => "章「"@ + name + "」を削除しますか？\nこの操作は元に戻せません。"@,
        PendingDeleteView::Tale(ch, name) => "話「"@ + name + "」("@ + ch
            + ")を削除しますか？\nこの操作は元に戻せません。"@,
        PendingDeleteView::Material(name) => "資料「"@ + name
            + "」を削除しますか？\nこの操作は元に戻せません。"@,
    }
}

impl PendingDelete {
    /// The confirmation message.
    pub fn message(&self) -> (r: String)
        ensures
            r@ == message_spec(self@),
    {
        match self {
            PendingDelete::Chapter(name) => {
                let mut r = String::from_str("章「");
                r.append(name.as_str());
                r.append("」を削除しますか？\nこの操作は元に戻せません。");
                r
            },
            PendingDelete::Tale(ch, name) => {
                let mut r = String::from_str("話「");
                r.append(name.as_str());
                r.append("」(");
                r.append(ch.as_str());
                r.append(")を削除しますか？\nこの操作は元に戻せません。");
                r
            },
            PendingDelete::Material(name) => {
                let mut r = String::from_str("資料「");
                r.append(name.as_str());
                r.append("」を削除しますか？\nこの操作は元に戻せません。");
                r
            },
        }
    }
}

// ── Rename dialog ──

/// Whether `s` holds `c`.
pub open spec fn has_char(s: Seq<char>, c: char) -> bool {
    exists|i: int| 0 <= i < s.len() && s[i] == c
}

/// Whether `.md` stands in `s` at position `i`.
pub open spec fn md_at(s: Seq<char>, i: int) -> bool {
    0 <= i && i + 3 <= s.len() && s[i] == '.' && s[i + 1] == 'm' && s[i + 2] == 'd'
}

/// Whether `s` holds `.md` somewhere.
pub open spec fn has_md(s: Seq<char>) -> bool {
    exists|i: int| #[trigger] md_at(s, i)
}

/// What is being renamed, as the dialog tells it from the key it was opened with: a
/// tale's key holds `|`, a material's file name holds `.md`, anything else is a chapter.
pub enum RenameKind {
    Tale,
    Material,
    Chapter,
}

pub open spec fn rename_kind_spec(old_name: Seq<char>) -> RenameKind {
    if has_char(old_name, '|') {
        RenameKind::Tale
    } else if has_md(old_name) {
        RenameKind::Material
    } else {
        RenameKind::Chapter
    }
}

/// Tells a tale, a material or a chapter from the key the rename dialog was opened with.
pub fn rename_kind(old_name: &str) -> (r: RenameKind)
    ensures
        r == rename_kind_spec(old_name@),
{
    let cs = chars_of(old_name);
    let mut i: usize = 0;
    while i < cs.len()
        invariant
            i <= cs@.len(),
            cs@ == old_name@,
            forall|j: int| 0 <= j < i ==> cs@[j] != '|',
        decreases cs@.len() - i,
    {
        if cs[i] == '|' {
            return RenameKind::Tale;
        }
        i += 1;
    }
    let mut k: usize = 0;
    while cs.len() >= 3 && k <= cs.len() - 3
        invariant
            k <= cs@.len(),
            cs@ == old_name@,
            !has_char(old_name@, '|'),
            forall|j: int| 0 <= j < k ==> !#[trigger] md_at(cs@, j),
        decreases cs@.len() + 3 - k,
    {
        if cs[k] == '.' && cs[k + 1] == 'm' && cs[k + 2] == 'd' {
            assert(md_at(cs@, k as int));
            return RenameKind::Material;
        }
        k += 1;
    }
    assert(!has_md(old_name@));
    RenameKind::Chapter
}

impl RenameKind {
    /// The dialog's heading.
    pub fn title(&self) -> (r: &'static str)
        ensures
            r@ == match self {
                RenameKind::Tale => "話名の変更"@,
                RenameKind::Material => "資料名の変更"@,
                RenameKind::Chapter => "章名の変更"@,
            },
    {
        match self {
            RenameKind::Tale => "話名の変更",
            RenameKind::Material => "資料名の変更",
            RenameKind::Chapter => "章名の変更",
        }
    }

    /// The label of the dialog's input.
    pub fn label(&self) -> (r: &'static str)
        ensures
            r@ == match self {
                RenameKind::Tale => "新しい話名"@,
                RenameKind::Material => "新しい資料名"@,
                RenameKind::Chapter => "新しい章名"@,
            },
    {
        match self {
            RenameKind::Tale => "新しい話名",
            RenameKind::Material => "新しい資料名",
            RenameKind::Chapter => "新しい章名",
        }
    }
}

// ── Confirming names ──

/// Whether the project and rename dialogs accept `name`: only a non-empty one.
pub fn name_accepted(name: &str) -> (r: bool)
    ensures
        r == (name@.len() > 0),
{
    let cs = chars_of(name);
    cs.len() > 0
}

/// Whether the settings dialog may be saved: a project needs a non-empty name; without
/// an open project there is no name to check.
pub fn settings_can_save(project_is_open: bool, name: &str) -> (r: bool)
    ensures
        r == (!project_is_open || name@.len() > 0),
{
    !project_is_open || name_accepted(name)
}

// ── Numbers typed into settings ──

/// Whether `c` is an ASCII digit.
pub open spec fn is_digit(c: char) -> bool {
    '0' <= c && c <= '9'
}

/// Whether every character of `d` is an ASCII digit.
pub open spec fn all_digits(d: Seq<char>) -> bool {
    forall|i: int| 0 <= i < d.len() ==> is_digit(#[trigger] d[i])
}

/// The value of a digit.
pub open spec fn digit_value(c: char) -> int {
    c as int - '0' as int
}

/// The decimal value of a string of digits.
pub open spec fn digits_value(s: Seq<char>) -> int
    decreases s.len(),
{
    if s.len() == 0 {
        0
    } else {
        10 * digits_value(s.drop_last()) + digit_value(s.last())
    }
}

/// The digits of an unsigned number as `str::parse` reads it: one leading `+` is allowed.
pub open spec fn unsigned_digits(s: Seq<char>) -> Seq<char> {
    if s.len() > 0 && s[0] == '+' {
        s.drop_first()
    } else {
        s
    }
}

/// What `str::parse` gives for an unsigned integer type whose largest value is `max`: the
/// number, when `s` is an optional `+` and one or more digits whose value is at most `max`.
pub open spec fn parse_unsigned_spec(s: Seq<char>, max: int) -> Option<int> {
    let d = unsigned_digits(s);
    if d.len() > 0 && all_digits(d) && digits_value(d) <= max {
        Some(digits_value(d))
    } else {
        None
    }
}

proof fn lemma_digits_value_grows(d: Seq<char>, j: int, k: int)
    requires
        0 <= j <= k <= d.len(),
        forall|i: int| 0 <= i < d.len() ==> is_digit(#[trigger] d[i]),
    ensures
        0 <= digits_value(d.take(j)) <= digits_value(d.take(k)),
    decreases k - j,
{
    if j < k {
        lemma_digits_value_grows(d, j, k - 1);
        assert(d.take(k).drop_last() =~= d.take(k - 1));
        assert(is_digit(d[k - 1]));
    } else {
        lemma_digits_value_nonneg(d.take(j));
    }
}

proof fn lemma_digits_value_nonneg(d: Seq<char>)
    requires
        forall|i: int| 0 <= i < d.len() ==> is_digit(#[trigger] d[i]),
    ensures
        digits_value(d) >= 0,
    decreases d.len(),
{
    if d.len() > 0 {
        lemma_digits_value_nonneg(d.drop_last());
        assert(is_digit(d[d.len() - 1]));
    }
}

/// Reads an unsigned number of at most `max` from `s` as `str::parse` does.
fn parse_unsigned(s: &str, max: u64) -> (r: Option<u64>)
    ensures
        r is None <==> parse_unsigned_spec(s@, max as int) is None,
        r matches Some(x) ==> parse_unsigned_spec(s@, max as int) == Some(x as int) && x <= max,
{
    let cs = chars_of(s);
    let ghost d = unsigned_digits(s@);
    let start: usize = if cs.len() > 0 && cs[0] == '+' { 1 } else { 0 };
    assert(d =~= cs@.skip(start as int));
    if start >= cs.len() {
        return None;
    }
    let mut i: usize = start;
    let mut v: u64 = 0;
    while i < cs.len()
        invariant
            start <= i <= cs@.len(),
            cs@ == s@,
            d == cs@.skip(start as int),
            d == unsigned_digits(s@),
            forall|j: int| 0 <= j < i - start ==> is_digit(#[trigger] d[j]),
            v as int == digits_value(d.take(i - start)),
            v <= max,
        decreases cs@.len() - i,
    {
        let c = cs[i];
        assert(d[i - start] == c);
        if !('0' <= c && c <= '9') {
            assert(!is_digit(d[i - start]));
            assert(!all_digits(d));
            assert(parse_unsigned_spec(s@, max as int) is None);
            return None;
        }
        let digit = (c as u32 - '0' as u32) as u64;
        assert(d.take(i - start + 1).drop_last() =~= d.take(i - start));
        assert(d[i - start] == c);
        if digit > max || v > (max - digit) / 10 {
            assert(10 * v + digit > max) by (nonlinear_arith)
                requires digit > max || v > (max - digit) / 10, v >= 0, max >= 0, digit >= 0;
            let ghost k = (i - start + 1) as int;
            proof {
                assert forall|j: int| 0 <= j < k implies is_digit(#[trigger] d.take(k)[j]) by {
                    if j < i - start {
                        assert(d.take(k)[j] == d[j]);
                    }
                }
            }
            assert(digits_value(d.take(k)) > max);
            proof {
                if all_digits(d) {
                    lemma_digits_value_grows(d, k, d.len() as int);
                    assert(d.take(d.len() as int) =~= d);
                    assert(digits_value(d) > max);
                }
            }
            assert(parse_unsigned_spec(s@, max as int) is None);
            return None;
        }
        assert(10 * v + digit <= max) by (nonlinear_arith)
            requires v <= (max - digit) / 10, digit <= max, max >= 0, digit >= 0;
        v = 10 * v + digit;
        i += 1;
    }
    assert(d.take(i - start) =~= d);
    Some(v)
}

/// The number typed for the daily goal or another `usize` field: the parsed value, or
/// `default` when the text is not a number that fits.
pub fn parse_usize_or(s: &str, default: usize) -> (r: usize)
    ensures
        r as int == match parse_unsigned_spec(s@, usize::MAX as int) {
            Some(v) => v,
            None => default as int,
        },
{
    match parse_unsigned(s, usize::MAX as u64) {
        Some(v) => v as usize,
        None => default,
    }
}

/// The number typed for the editor width or another `u32` field: the parsed value, or
/// `default` when the text is not a number that fits.
pub fn parse_u32_or(s: &str, default: u32) -> (r: u32)
    ensures
        r as int == match parse_unsigned_spec(s@, u32::MAX as int) {
            Some(v) => v,
            None => default as int,
        },
{
    match parse_unsigned(s, u32::MAX as u64) {
        Some(v) => v as u32,
        None => default,
    }
}

proof fn lemma_decimal_digits(n: nat)
    ensures
        decimal(n).len() > 0,
        all_digits(decimal(n)),
        digits_value(decimal(n)) == n,
        decimal(n)[0] != '+',
    decreases n,
{
    if n < 10 {
        assert(digit_value(digit_char(n)) == n);
        assert(seq![digit_char(n)].drop_last() =~= Seq::<char>::empty());
        assert(digits_value(Seq::<char>::empty()) == 0);
        assert(digits_value(decimal(n)) == 10 * digits_value(decimal(n).drop_last()) + digit_value(decimal(n).last()));
    } else {
        lemma_decimal_digits(n / 10);
        let d = decimal(n);
        assert(d.drop_last() =~= decimal(n / 10));
        assert(digit_value(digit_char(n % 10)) == n % 10);
        assert(d.last() == digit_char(n % 10));
        assert(10 * (n / 10) + n % 10 == n);
        assert(digits_value(d) == 10 * digits_value(d.drop_last()) + digit_value(d.last()));
        assert(d[0] == decimal(n / 10)[0]);
        assert forall|i: int| 0 <= i < d.len() implies is_digit(#[trigger] d[i]) by {
            if i < d.len() - 1 {
                assert(d[i] == decimal(n / 10)[i]);
            }
        }
    }
}

/// A number that fits, written in decimal and typed into a settings field, is read back
/// as that number.
pub proof fn parse_reads_back_decimal(n: nat, max: nat)
    requires
        n <= max,
    ensures
        parse_unsigned_spec(decimal(n), max as int) == Some(n as int),
{
    lemma_decimal_digits(n);
    assert(unsigned_digits(decimal(n)) == decimal(n));
}

} // verus!
