//! Text layout for the terminal dashboard and the JSON records: escaping,
//! widths that ignore ANSI colour sequences, padding, truncation, box drawing.
use vstd::prelude::*;
use crate::hexdump::hex_cells;
use crate::textfmt::{chars_of, hex2, push_char, push_chars, push_hex2};

verus! {

/// Characters between the outer walls of the dashboard.
pub const W_TOTAL: usize = 118;
/// Characters inside the left panel.
pub const W_LEFT: usize = 63;
/// Characters inside the right panel.
pub const W_RIGHT: usize = 52;
/// Bytes of a packet rendered as hexadecimal in a JSON record.
pub const HEX_PREVIEW_LIMIT: usize = 256;

/// The escape character that starts an ANSI sequence.
pub const ESC: char = '\x1B';

/// `n` copies of `c`.
pub open spec fn repeat_char(c: char, n: nat) -> Seq<char> {
    Seq::new(n, |i: int| c)
}

/// A character of a JSON string value: backslash and double quote escaped.
pub open spec fn json_escaped_char(c: char) -> Seq<char> {
    if c == '\\' {
        seq!['\\', '\\']
    } else if c == '"' {
        seq!['\\', '"']
    } else {
        seq![c]
    }
}

/// `s` with every backslash doubled and every double quote preceded by a backslash.
pub open spec fn json_escaped(s: Seq<char>) -> Seq<char>
    decreases s.len(),
{
    if s.len() == 0 {
        Seq::empty()
    } else {
        json_escaped(s.drop_last()) + json_escaped_char(s.last())
    }
}

/// Escapes `s` for use inside a JSON string literal (backslash and double quote).
pub fn escape_json(s: &str) -> (out: String)
    ensures
        out@ == json_escaped(s@),
{
    let chars = chars_of(s);
    let mut out = String::new();
    let mut i: usize = 0;
    while i < chars.len()
        invariant
            i <= chars@.len(),
            out@ == json_escaped(chars@.take(i as int)),
        decreases chars@.len() - i,
    {
        let c = chars[i];
        if c == '\\' {
            push_char(&mut out, '\\');
            push_char(&mut out, '\\');
        } else if c == '"' {
            push_char(&mut out, '\\');
            push_char(&mut out, '"');
        } else {
            push_char(&mut out, c);
        }
        proof {
            assert(chars@.take(i + 1).drop_last() =~= chars@.take(i as int));
        }
        i = i + 1;
    }
    assert(chars@.take(chars@.len() as int) =~= chars@);
    out
}

/// Reads back a JSON string value escaped by `json_escaped`: a backslash
/// stands for the character after it.
pub open spec fn json_unescaped(s: Seq<char>) -> Seq<char>
    decreases s.len(),
{
    if s.len() == 0 {
        Seq::empty()
    } else if s[0] == '\\' && s.len() > 1 {
        seq![s[1]] + json_unescaped(s.skip(2))
    } else {
        seq![s[0]] + json_unescaped(s.drop_first())
    }
}

proof fn lemma_json_escaped_concat(a: Seq<char>, b: Seq<char>)
    ensures
        json_escaped(a + b) == json_escaped(a) + json_escaped(b),
    decreases b.len(),
{
    if b.len() == 0 {
        assert(a + b =~= a);
        assert(json_escaped(a) + json_escaped(b) =~= json_escaped(a));
    } else {
        lemma_json_escaped_concat(a, b.drop_last());
        assert((a + b).drop_last() =~= a + b.drop_last());
        assert(json_escaped(a) + json_escaped(b) =~= json_escaped(a) + json_escaped(b.drop_last()) + json_escaped_char(b.last()));
    }
}

/// Escaping for JSON loses nothing: reading the escaped text back gives the
/// text that was escaped.
pub proof fn lemma_json_escape_round_trip(s: Seq<char>)
    ensures
        json_unescaped(json_escaped(s)) == s,
    decreases s.len(),
{
    if s.len() > 0 {
        let c = s[0];
        let rest = s.drop_first();
        assert(s =~= seq![c] + rest);
        lemma_json_escaped_concat(seq![c], rest);
        assert(seq![c].drop_last() =~= Seq::<char>::empty());
        assert(seq![c].last() == c);
        assert(json_escaped(Seq::<char>::empty()) =~= Seq::<char>::empty());
        assert(json_escaped(seq![c]) =~= json_escaped_char(c));
        lemma_json_escape_round_trip(rest);
        let e = json_escaped(s);
        if c == '\\' || c == '"' {
            assert(e =~= seq!['\\', c] + json_escaped(rest));
            assert(e.skip(2) =~= json_escaped(rest));
        } else {
            assert(e =~= seq![c] + json_escaped(rest));
            assert(e.drop_first() =~= json_escaped(rest));
        }
    }
}

/// The bytes as concatenated two-digit lower-case hexadecimal.
pub open spec fn hex_string(bytes: Seq<u8>) -> Seq<char>
    decreases bytes.len(),
{
    if bytes.len() == 0 {
        Seq::empty()
    } else {
        hex_string(bytes.drop_last()) + hex2(bytes.last())
    }
}

/// The first 256 bytes (at most) as two-digit lower-case hexadecimal.
pub fn to_hex_string(bytes: &[u8]) -> (out: String)
    ensures
        out@ == hex_string(bytes@.take(if bytes@.len() < HEX_PREVIEW_LIMIT { bytes@.len() as int } else { HEX_PREVIEW_LIMIT as int })),
{
    let limit = if bytes.len() < HEX_PREVIEW_LIMIT { bytes.len() } else { HEX_PREVIEW_LIMIT };
    let mut out = String::new();
    let mut i: usize = 0;
    while i < limit
        invariant
            i <= limit <= bytes@.len(),
            out@ == hex_string(bytes@.take(i as int)),
        decreases limit - i,
    {
        push_hex2(&mut out, bytes[i]);
        proof {
            assert(bytes@.take(i + 1).drop_last() =~= bytes@.take(i as int));
        }
        i = i + 1;
    }
    out
}

/// Appends `n` copies of `c`.
fn push_repeated(s: &mut String, c: char, n: usize)
    ensures
        final(s)@ == old(s)@ + repeat_char(c, n as nat),
{
    let ghost start = s@;
    let mut i: usize = 0;
    while i < n
        invariant
            i <= n,
            s@ == start + repeat_char(c, i as nat),
        decreases n - i,
    {
        push_char(s, c);
        i = i + 1;
        assert(s@ =~= start + repeat_char(c, i as nat));
    }
}

/// A horizontal box-drawing line of `n` characters.
pub fn h_line(n: usize) -> (out: String)
    ensures
        out@ == repeat_char('─', n as nat),
{
    let mut out = String::new();
    push_repeated(&mut out, '─', n);
    assert(out@ =~= repeat_char('─', n as nat));
    out
}

/// `left`, a line of `width` characters, `right`.
pub open spec fn framed_line(left: char, width: nat, right: char) -> Seq<char> {
    seq![left] + repeat_char('─', width) + seq![right]
}

/// `left`, a line of `w1` characters, `mid`, a line of `w2` characters, `right`.
pub open spec fn split_line(left: char, w1: nat, mid: char, w2: nat, right: char) -> Seq<char> {
    seq![left] + repeat_char('─', w1) + seq![mid] + repeat_char('─', w2) + seq![right]
}

fn framed(left: char, width: usize, right: char) -> (out: String)
    ensures
        out@ == framed_line(left, width as nat, right),
{
    let mut out = String::new();
    push_char(&mut out, left);
    push_repeated(&mut out, '─', width);
    push_char(&mut out, right);
    out
}

fn split(left: char, w1: usize, mid: char, w2: usize, right: char) -> (out: String)
    ensures
        out@ == split_line(left, w1 as nat, mid, w2 as nat, right),
{
    let mut out = String::new();
    push_char(&mut out, left);
    push_repeated(&mut out, '─', w1);
    push_char(&mut out, mid);
    push_repeated(&mut out, '─', w2);
    push_char(&mut out, right);
    out
}

/// The dashboard's top border.
pub fn top_border() -> (out: String)
    ensures
        out@ == framed_line('╭', (W_TOTAL + 2) as nat, '╮'),
{
    framed('╭', W_TOTAL + 2, '╮')
}

/// The dashboard's bottom border.
pub fn bot_border() -> (out: String)
    ensures
        out@ == framed_line('╰', (W_TOTAL + 2) as nat, '╯'),
{
    framed('╰', W_TOTAL + 2, '╯')
}

/// A full-width separator.
pub fn mid_full() -> (out: String)
    ensures
        out@ == framed_line('├', (W_TOTAL + 2) as nat, '┤'),
{
    framed('├', W_TOTAL + 2, '┤')
}

/// The separator that opens the two panels.
pub fn mid_split_top() -> (out: String)
    ensures
        out@ == split_line('├', (W_LEFT + 2) as nat, '┬', (W_RIGHT + 2) as nat, '┤'),
{
    split('├', W_LEFT + 2, '┬', W_RIGHT + 2, '┤')
}

/// A separator across both panels.
pub fn mid_split_mid() -> (out: String)
    ensures
        out@ == split_line('├', (W_LEFT + 2) as nat, '┼', (W_RIGHT + 2) as nat, '┤'),
{
    split('├', W_LEFT + 2, '┼', W_RIGHT + 2, '┤')
}

/// The separator that closes the two panels.
pub fn mid_split_bot() -> (out: String)
    ensures
        out@ == split_line('├', (W_LEFT + 2) as nat, '┴', (W_RIGHT + 2) as nat, '┤'),
{
    split('├', W_LEFT + 2, '┴', W_RIGHT + 2, '┤')
}

/// The number of characters of `s` that take a column on the terminal:
/// `ESC [` opens a colour sequence, which lasts up to and including `m`.
pub open spec fn visible_count(s: Seq<char>, in_ansi: bool) -> nat
    decreases s.len(),
{
    if s.len() == 0 {
        0
    } else if s[0] == ESC && s.len() > 1 && s[1] == '[' {
        visible_count(s.skip(2), true)
    } else if in_ansi {
        visible_count(s.drop_first(), s[0] != 'm')
    } else {
        1 + visible_count(s.drop_first(), false)
    }
}

/// The number of terminal columns `s` takes, colour sequences not counted.
pub fn visible_width(s: &str) -> (n: usize)
    ensures
        n == visible_count(s@, false),
{
    let chars = chars_of(s);
    let mut count: usize = 0;
    let mut in_ansi = false;
    let mut i: usize = 0;
    assert(chars@.skip(0) =~= chars@);
    while i < chars.len()
        invariant
            i <= chars@.len(),
            count <= i,
            count + visible_count(chars@.skip(i as int), in_ansi) == visible_count(chars@, false),
        decreases chars@.len() - i,
    {
        let c = chars[i];
        proof {
            assert(chars@.skip(i as int).drop_first() =~= chars@.skip(i + 1));
            if i + 1 < chars@.len() {
                assert(chars@.skip(i as int).skip(2) =~= chars@.skip(i + 2));
            }
        }
        if c == ESC && i + 1 < chars.len() && chars[i + 1] == '[' {
            in_ansi = true;
            i = i + 2;
        } else if in_ansi {
            if c == 'm' {
                in_ansi = false;
            }
            i = i + 1;
        } else {
            count = count + 1;
            i = i + 1;
        }
    }
    proof {
        assert(chars@.skip(i as int).len() == 0);
    }
    count
}

/// `s` cut after `budget` visible characters; colour sequences (from `ESC`
/// up to `m`) are kept whole wherever they stand.
pub open spec fn clip_visible(s: Seq<char>, in_ansi: bool, budget: nat) -> Seq<char>
    decreases s.len(),
{
    if s.len() == 0 {
        Seq::empty()
    } else if s[0] == ESC {
        seq![ESC] + clip_visible(s.drop_first(), true, budget)
    } else if in_ansi {
        seq![s[0]] + clip_visible(s.drop_first(), s[0] != 'm', budget)
    } else if budget == 0 {
        Seq::empty()
    } else {
        seq![s[0]] + clip_visible(s.drop_first(), false, (budget - 1) as nat)
    }
}

/// `content` fitted to `width` columns: cut when it is as wide or wider,
/// else padded on the right with spaces.
pub open spec fn padded_visible(content: Seq<char>, width: nat) -> Seq<char> {
    let vis = visible_count(content, false);
    if vis >= width {
        clip_visible(content, false, width)
    } else {
        content + repeat_char(' ', (width - vis) as nat)
    }
}

/// Fits `content` to exactly `width` visible columns.
pub fn pad_visible(content: &str, width: usize) -> (out: String)
    ensures
        out@ == padded_visible(content@, width as nat),
{
    let vis = visible_width(content);
    if vis >= width {
        let chars = chars_of(content);
        let mut result = String::new();
        let mut count: usize = 0;
        let mut in_ansi = false;
        let mut i: usize = 0;
        assert(chars@.skip(0) =~= chars@);
        assert(result@ =~= Seq::<char>::empty());
        while i < chars.len()
            invariant
                i <= chars@.len(),
                count <= width,
                result@ + clip_visible(chars@.skip(i as int), in_ansi, (width - count) as nat)
                    == clip_visible(chars@, false, width as nat),
            ensures
                result@ == clip_visible(chars@, false, width as nat),
            decreases chars@.len() - i,
        {
            let c = chars[i];
            proof {
                assert(chars@.skip(i as int).drop_first() =~= chars@.skip(i + 1));
            }
            if c == ESC {
                in_ansi = true;
                push_char(&mut result, c);
                i = i + 1;
                assert(result@ + clip_visible(chars@.skip(i as int), in_ansi, (width - count) as nat)
                    =~= clip_visible(chars@, false, width as nat));
                continue;
            }
            if in_ansi {
                push_char(&mut result, c);
                if c == 'm' {
                    in_ansi = false;
                }
                i = i + 1;
                assert(result@ + clip_visible(chars@.skip(i as int), in_ansi, (width - count) as nat)
                    =~= clip_visible(chars@, false, width as nat));
                continue;
            }
            if count >= width {
                assert(result@ =~= clip_visible(chars@, false, width as nat));
                break;
            }
            push_char(&mut result, c);
            count = count + 1;
            i = i + 1;
            assert(result@ + clip_visible(chars@.skip(i as int), in_ansi, (width - count) as nat)
                =~= clip_visible(chars@, false, width as nat));
        }
        result
    } else {
        let mut out = String::from_str(content);
        push_repeated(&mut out, ' ', width - vis);
        out
    }
}

/// A full-width row: `content` fitted to `W_TOTAL` columns between the walls.
pub open spec fn full_row(content: Seq<char>) -> Seq<char> {
    seq!['│', ' '] + padded_visible(content, W_TOTAL as nat) + seq![' ', '│']
}

/// A two-panel row: `left` fitted to `W_LEFT` columns and `right` to `W_RIGHT`.
pub open spec fn split_row(left: Seq<char>, right: Seq<char>) -> Seq<char> {
    seq!['│', ' '] + padded_visible(left, W_LEFT as nat) + seq![' ', '│', ' ']
        + padded_visible(right, W_RIGHT as nat) + seq![' ', '│']
}

/// A full-width dashboard row.
pub fn row_full(content: &str) -> (out: String)
    ensures
        out@ == full_row(content@),
{
    let mut out = String::new();
    push_char(&mut out, '│');
    push_char(&mut out, ' ');
    let inner = pad_visible(content, W_TOTAL);
    out.append(inner.as_str());
    push_char(&mut out, ' ');
    push_char(&mut out, '│');
    assert(out@ =~= seq!['│', ' '] + padded_visible(content@, W_TOTAL as nat) + seq![' ', '│']);
    out
}

/// A two-panel dashboard row.
pub fn row_split(left: &str, right: &str) -> (out: String)
    ensures
        out@ == split_row(left@, right@),
{
    let mut out = String::new();
    push_char(&mut out, '│');
    push_char(&mut out, ' ');
    let l = pad_visible(left, W_LEFT);
    out.append(l.as_str());
    push_char(&mut out, ' ');
    push_char(&mut out, '│');
    push_char(&mut out, ' ');
    let r = pad_visible(right, W_RIGHT);
    out.append(r.as_str());
    push_char(&mut out, ' ');
    push_char(&mut out, '│');
    assert(out@ =~= seq!['│', ' '] + padded_visible(left@, W_LEFT as nat) + seq![' ', '│', ' ']
        + padded_visible(right@, W_RIGHT as nat) + seq![' ', '│']);
    out
}

/// Whether a colour sequence is still open after reading `s`, starting
/// inside one when `in_ansi` (as `visible_count` reads it).
pub open spec fn colour_open_after(s: Seq<char>, in_ansi: bool) -> bool
    decreases s.len(),
{
    if s.len() == 0 {
        in_ansi
    } else if s[0] == ESC && s.len() > 1 && s[1] == '[' {
        colour_open_after(s.skip(2), true)
    } else if in_ansi {
        colour_open_after(s.drop_first(), s[0] != 'm')
    } else {
        colour_open_after(s.drop_first(), false)
    }
}

/// Text whose colour sequences are well formed: every escape character opens
/// one (`ESC [`), and the last one is closed by the end.
pub open spec fn colours_closed(s: Seq<char>) -> bool {
    &&& escapes_open(s)
    &&& !colour_open_after(s, false)
}

/// Every escape character of `s` opens a colour sequence.
pub open spec fn escapes_open(s: Seq<char>) -> bool {
    forall|i: int| 0 <= i < s.len() && #[trigger] s[i] == ESC ==> i + 1 < s.len() && s[i + 1] == '['
}

proof fn lemma_escapes_open_skip(s: Seq<char>, k: int)
    requires
        escapes_open(s),
        0 <= k <= s.len(),
    ensures
        escapes_open(s.skip(k)),
{
    assert forall|i: int| 0 <= i < s.skip(k).len() && #[trigger] s.skip(k)[i] == ESC implies i + 1 < s.skip(k).len()
        && s.skip(k)[i + 1] == '[' by {
        assert(s.skip(k)[i] == s[i + k]);
    }
}

proof fn lemma_escapes_open_concat(a: Seq<char>, b: Seq<char>)
    requires
        escapes_open(a),
        escapes_open(b),
    ensures
        escapes_open(a + b),
{
    assert forall|i: int| 0 <= i < (a + b).len() && #[trigger] (a + b)[i] == ESC implies i + 1 < (a + b).len()
        && (a + b)[i + 1] == '[' by {
        if i < a.len() {
            assert(a[i] == ESC);
        } else {
            assert(b[i - a.len()] == ESC);
        }
    }
}

/// Reading `a + b` is reading `a`, then reading `b` in the state `a` ends in.
proof fn lemma_visible_count_concat(a: Seq<char>, b: Seq<char>, in_ansi: bool)
    requires
        escapes_open(a),
    ensures
        visible_count(a + b, in_ansi) == visible_count(a, in_ansi) + visible_count(b, colour_open_after(a, in_ansi)),
        colour_open_after(a + b, in_ansi) == colour_open_after(b, colour_open_after(a, in_ansi)),
    decreases a.len(),
{
    if a.len() == 0 {
        assert(a + b =~= b);
    } else if a[0] == ESC {
        lemma_escapes_open_skip(a, 2);
        assert((a + b).skip(2) =~= a.skip(2) + b);
        lemma_visible_count_concat(a.skip(2), b, true);
    } else {
        lemma_escapes_open_skip(a, 1);
        assert(a.drop_first() =~= a.skip(1));
        assert((a + b).drop_first() =~= a.drop_first() + b);
        lemma_visible_count_concat(a.drop_first(), b, if in_ansi { a[0] != 'm' } else { false });
    }
}

/// Text without escape characters takes one column per character.
proof fn lemma_plain_text(s: Seq<char>)
    requires
        forall|i: int| 0 <= i < s.len() ==> #[trigger] s[i] != ESC,
    ensures
        colours_closed(s),
        visible_count(s, false) == s.len(),
    decreases s.len(),
{
    if s.len() > 0 {
        assert forall|i: int| 0 <= i < s.drop_first().len() implies #[trigger] s.drop_first()[i] != ESC by {
            assert(s.drop_first()[i] == s[i + 1]);
        }
        lemma_plain_text(s.drop_first());
    }
}

/// Joining two texts with closed colour sequences adds their widths.
proof fn lemma_closed_concat(a: Seq<char>, b: Seq<char>)
    requires
        colours_closed(a),
        colours_closed(b),
    ensures
        colours_closed(a + b),
        visible_count(a + b, false) == visible_count(a, false) + visible_count(b, false),
{
    lemma_escapes_open_concat(a, b);
    lemma_visible_count_concat(a, b, false);
}

/// Cutting after `budget` visible characters leaves exactly `budget` of them.
proof fn lemma_clip_width(s: Seq<char>, in_ansi: bool, budget: nat)
    requires
        escapes_open(s),
        visible_count(s, in_ansi) >= budget,
    ensures
        visible_count(clip_visible(s, in_ansi, budget), in_ansi) == budget,
        escapes_open(clip_visible(s, in_ansi, budget)),
        !colour_open_after(s, in_ansi) ==> !colour_open_after(clip_visible(s, in_ansi, budget), in_ansi),
    decreases s.len(),
{
    let c = clip_visible(s, in_ansi, budget);
    if s.len() == 0 {
    } else if s[0] == ESC {
        let rest = s.skip(2);
        lemma_escapes_open_skip(s, 2);
        assert(s.drop_first().drop_first() =~= rest);
        assert(clip_visible(s.drop_first(), true, budget) == seq!['['] + clip_visible(s.drop_first().drop_first(), true, budget));
        let tail = clip_visible(rest, true, budget);
        lemma_clip_width(rest, true, budget);
        assert(c =~= seq![ESC, '['] + tail);
        assert(c.skip(2) =~= tail);
        lemma_escapes_open_concat(seq![ESC, '['], tail);
    } else {
        let rest = s.drop_first();
        lemma_escapes_open_skip(s, 1);
        assert(rest =~= s.skip(1));
        if in_ansi {
            lemma_clip_width(rest, s[0] != 'm', budget);
            let tail = clip_visible(rest, s[0] != 'm', budget);
            assert(c.drop_first() =~= tail);
            lemma_escapes_open_concat(seq![s[0]], tail);
        } else if budget > 0 {
            lemma_clip_width(rest, false, (budget - 1) as nat);
            let tail = clip_visible(rest, false, (budget - 1) as nat);
            assert(c.drop_first() =~= tail);
            lemma_escapes_open_concat(seq![s[0]], tail);
        }
    }
}

/// Fitting text with closed colour sequences gives exactly `width` columns.
proof fn lemma_padded_width(content: Seq<char>, width: nat)
    requires
        colours_closed(content),
    ensures
        colours_closed(padded_visible(content, width)),
        visible_count(padded_visible(content, width), false) == width,
{
    if visible_count(content, false) >= width {
        lemma_clip_width(content, false, width);
    } else {
        let pad = repeat_char(' ', (width - visible_count(content, false)) as nat);
        lemma_plain_text(pad);
        lemma_closed_concat(content, pad);
    }
}

proof fn lemma_framed_line_width(left: char, width: nat, right: char)
    requires
        left != ESC,
        right != ESC,
    ensures
        visible_count(framed_line(left, width, right), false) == width + 2,
{
    let f = framed_line(left, width, right);
    assert forall|i: int| 0 <= i < f.len() implies #[trigger] f[i] != ESC by {
        if 0 < i <= width {
            assert(f[i] == '─');
        }
    }
    lemma_plain_text(f);
}

proof fn lemma_split_line_width(left: char, w1: nat, mid: char, w2: nat, right: char)
    requires
        left != ESC,
        mid != ESC,
        right != ESC,
    ensures
        visible_count(split_line(left, w1, mid, w2, right), false) == w1 + w2 + 3,
{
    let f = split_line(left, w1, mid, w2, right);
    assert forall|i: int| 0 <= i < f.len() implies #[trigger] f[i] != ESC by {
        if 0 < i <= w1 {
            assert(f[i] == '─');
        } else if w1 + 1 < i <= w1 + w2 + 1 {
            assert(f[i] == '─');
        }
    }
    lemma_plain_text(f);
}

/// Every line of the dashboard frame takes the same number of terminal
/// columns, `W_TOTAL + 4`: the borders, the separators, each full-width row
/// and each two-panel row, whatever their contents, as long as the contents'
/// colour sequences are well formed (each escape opens one and the last is closed).
pub proof fn lemma_dashboard_lines_same_width(content: Seq<char>, left: Seq<char>, right: Seq<char>)
    requires
        colours_closed(content),
        colours_closed(left),
        colours_closed(right),
    ensures
        visible_count(framed_line('╭', (W_TOTAL + 2) as nat, '╮'), false) == W_TOTAL + 4,
        visible_count(framed_line('╰', (W_TOTAL + 2) as nat, '╯'), false) == W_TOTAL + 4,
        visible_count(framed_line('├', (W_TOTAL + 2) as nat, '┤'), false) == W_TOTAL + 4,
        visible_count(split_line('├', (W_LEFT + 2) as nat, '┬', (W_RIGHT + 2) as nat, '┤'), false) == W_TOTAL + 4,
        visible_count(split_line('├', (W_LEFT + 2) as nat, '┼', (W_RIGHT + 2) as nat, '┤'), false) == W_TOTAL + 4,
        visible_count(split_line('├', (W_LEFT + 2) as nat, '┴', (W_RIGHT + 2) as nat, '┤'), false) == W_TOTAL + 4,
        visible_count(full_row(content), false) == W_TOTAL + 4,
        visible_count(split_row(left, right), false) == W_TOTAL + 4,
{
    lemma_framed_line_width('╭', (W_TOTAL + 2) as nat, '╮');
    lemma_framed_line_width('╰', (W_TOTAL + 2) as nat, '╯');
    lemma_framed_line_width('├', (W_TOTAL + 2) as nat, '┤');
    lemma_split_line_width('├', (W_LEFT + 2) as nat, '┬', (W_RIGHT + 2) as nat, '┤');
    lemma_split_line_width('├', (W_LEFT + 2) as nat, '┼', (W_RIGHT + 2) as nat, '┤');
    lemma_split_line_width('├', (W_LEFT + 2) as nat, '┴', (W_RIGHT + 2) as nat, '┤');

    let open_wall = seq!['│', ' '];
    let close_wall = seq![' ', '│'];
    let middle_wall = seq![' ', '│', ' '];
    lemma_plain_text(open_wall);
    lemma_plain_text(close_wall);
    lemma_plain_text(middle_wall);

    let p = padded_visible(content, W_TOTAL as nat);
    lemma_padded_width(content, W_TOTAL as nat);
    lemma_closed_concat(open_wall, p);
    lemma_closed_concat(open_wall + p, close_wall);

    let pl = padded_visible(left, W_LEFT as nat);
    let pr = padded_visible(right, W_RIGHT as nat);
    lemma_padded_width(left, W_LEFT as nat);
    lemma_padded_width(right, W_RIGHT as nat);
    lemma_closed_concat(open_wall, pl);
    lemma_closed_concat(open_wall + pl, middle_wall);
    lemma_closed_concat(open_wall + pl + middle_wall, pr);
    lemma_closed_concat(open_wall + pl + middle_wall + pr, close_wall);
}

/// `s` cut to `max_chars` characters: when longer, its first `max_chars - 1`
/// characters followed by an ellipsis.
pub open spec fn truncated(s: Seq<char>, max_chars: nat) -> Seq<char> {
    if s.len() <= max_chars {
        s
    } else {
        s.take(if max_chars > 0 { max_chars - 1 } else { 0 }) + seq!['…']
    }
}

/// Shortens `s` to at most `max_chars` characters, marking a cut with `…`.
///
/// The cut is made one byte before the first dropped character, so the last
/// kept position must hold a one-byte (ASCII) character.
pub fn truncate(s: &str, max_chars: usize) -> (out: String)
    requires
        truncation_is_safe(s@, max_chars as nat),
    ensures
        out@ == truncated(s@, max_chars as nat),
        max_chars > 0 ==> out@.len() <= max_chars,
{
    let chars = chars_of(s);
    if chars.len() <= max_chars {
        return String::from_str(s);
    }
    let keep = if max_chars > 0 { max_chars - 1 } else { 0 };
    let mut out = String::new();
    let mut i: usize = 0;
    while i < keep
        invariant
            i <= keep < chars@.len(),
            out@ == chars@.take(i as int),
        decreases keep - i,
    {
        push_char(&mut out, chars[i]);
        i = i + 1;
        assert(out@ =~= chars@.take(i as int));
    }
    push_char(&mut out, '…');
    out
}

/// Whether `truncate(s, max_chars)` can cut `s`: it is short enough, or the
/// last kept position holds a one-byte (ASCII) character.
pub open spec fn truncation_is_safe(s: Seq<char>, max_chars: nat) -> bool {
    s.len() > max_chars && max_chars > 0 ==> (s[max_chars - 1] as u32) < 0x80
}

/// Whether `truncate(s, max_chars)` can be called on `s`.
pub fn truncate_is_safe(s: &str, max_chars: usize) -> (r: bool)
    ensures
        r == truncation_is_safe(s@, max_chars as nat),
{
    let chars = chars_of(s);
    if chars.len() > max_chars && max_chars > 0 {
        (chars[max_chars - 1] as u32) < 0x80
    } else {
        true
    }
}

/// The bar glyph for `val` on a scale up to `max`; `·` for nothing.
pub open spec fn sparkline_glyph(val: nat, max: nat) -> char {
    if max == 0 || val == 0 {
        '·'
    } else {
        let idx = (val * 7) / max;
        ((0x2581 + (if idx < 7 { idx } else { 7 })) as u32) as char
    }
}

/// The sparkline glyph for `val` against `max`: eight heights from `▁` to `█`.
pub fn get_sparkline_char(val: usize, max: usize) -> (c: char)
    requires
        val * 7 <= usize::MAX,
    ensures
        c == sparkline_glyph(val as nat, max as nat),
{
    if max == 0 || val == 0 {
        return '·';
    }
    let chars: [char; 8] = ['▁', '▂', '▃', '▄', '▅', '▆', '▇', '█'];
    let scaled = (val * 7) / max;
    let idx = if scaled < 7 { scaled } else { 7 };
    chars[idx]
}

/// The largest value, at least 1.
pub open spec fn scale_max(values: Seq<usize>) -> nat
    decreases values.len(),
{
    if values.len() == 0 {
        1
    } else {
        let rest = scale_max(values.drop_last());
        if values.last() > rest { values.last() as nat } else { rest }
    }
}

/// The largest of `values`, and at least 1: the top of the sparkline's scale.
pub fn scale_of(values: &Vec<usize>) -> (m: usize)
    ensures
        m == scale_max(values@),
{
    let mut max_r: usize = 1;
    let mut i: usize = 0;
    while i < values.len()
        invariant
            i <= values@.len(),
            max_r == scale_max(values@.take(i as int)),
        decreases values@.len() - i,
    {
        proof { assert(values@.take(i + 1).drop_last() =~= values@.take(i as int)); }
        if values[i] > max_r {
            max_r = values[i];
        }
        i = i + 1;
    }
    assert(values@.take(values@.len() as int) =~= values@);
    max_r
}

/// One sparkline glyph per rate, scaled to the largest rate (at least 1).
pub fn sparkline(rates: &Vec<usize>) -> (out: String)
    requires
        forall|i: int| 0 <= i < rates@.len() ==> rates@[i] * 7 <= usize::MAX,
    ensures
        out@ == rates@.map_values(|r: usize| sparkline_glyph(r as nat, scale_max(rates@))),
{
    let max_r = scale_of(rates);
    let mut out = String::new();
    let mut j: usize = 0;
    while j < rates.len()
        invariant
            j <= rates@.len(),
            max_r == scale_max(rates@),
            forall|i: int| 0 <= i < rates@.len() ==> rates@[i] * 7 <= usize::MAX,
            out@ == rates@.take(j as int).map_values(|r: usize| sparkline_glyph(r as nat, scale_max(rates@))),
        decreases rates@.len() - j,
    {
        push_char(&mut out, get_sparkline_char(rates[j], max_r));
        j = j + 1;
        assert(out@ =~= rates@.take(j as int).map_values(|r: usize| sparkline_glyph(r as nat, scale_max(rates@))));
    }
    assert(rates@.take(rates@.len() as int) =~= rates@);
    out
}

/// How many of `width` bar cells are filled for `count` out of `max`.
pub open spec fn bar_filled(count: nat, max: nat, width: nat) -> nat {
    if max == 0 { 0 } else { (count * width) / max }
}

/// The two parts of a bar of `bar_width` cells for `count` out of `max`: the
/// filled cells (`█`) and the empty ones (`░`).
pub fn render_bar_parts(count: usize, max: usize, bar_width: usize) -> (parts: (String, String))
    requires
        count * bar_width <= usize::MAX,
        bar_filled(count as nat, max as nat, bar_width as nat) <= bar_width,
    ensures
        parts.0@ == repeat_char('█', bar_filled(count as nat, max as nat, bar_width as nat)),
        parts.1@ == repeat_char('░', (bar_width - bar_filled(count as nat, max as nat, bar_width as nat)) as nat),
{
    let filled = if max == 0 { 0 } else { (count * bar_width) / max };
    let empty = bar_width - filled;
    let mut full_part = String::new();
    push_repeated(&mut full_part, '█', filled);
    let mut empty_part = String::new();
    push_repeated(&mut empty_part, '░', empty);
    assert(full_part@ =~= repeat_char('█', filled as nat));
    assert(empty_part@ =~= repeat_char('░', empty as nat));
    (full_part, empty_part)
}

/// Bytes shown by the payload inspector.
pub const INSPECTOR_LIMIT: usize = 96;

/// The inspector shows printable ASCII as itself, anything else as `·`.
pub open spec fn inspector_cell(b: u8) -> char {
    if 32 <= b <= 126 {
        b as char
    } else {
        '·'
    }
}

/// One line of the payload inspector: where it starts, its hex columns and its text.
pub struct InspectorRow {
    pub offset: usize,
    pub hex: String,
    pub ascii: String,
}

/// Bytes `offset..` of line starting at `offset`, within the shown part of `bytes`.
pub open spec fn inspector_chunk(bytes: Seq<u8>, offset: int) -> Seq<u8> {
    let limit = if bytes.len() < INSPECTOR_LIMIT { bytes.len() as int } else { INSPECTOR_LIMIT as int };
    let end = if offset + 16 < limit { offset + 16 } else { limit };
    bytes.subrange(offset, end)
}

/// `row` is line `k` of the inspector for `bytes`.
pub open spec fn inspector_row_is(bytes: Seq<u8>, k: int, row: InspectorRow) -> bool {
    let chunk = inspector_chunk(bytes, 16 * k);
    &&& row.offset == 16 * k
    &&& row.hex@ == hex_cells(chunk, 16)
    &&& row.ascii@ == chunk.map_values(|b: u8| inspector_cell(b))
}

/// The lines of the payload inspector for the first 96 bytes, 16 per line.
pub fn format_inspector_hex(bytes: &[u8]) -> (rows: Vec<InspectorRow>)
    ensures
        rows@.len() == ((if bytes@.len() < INSPECTOR_LIMIT { bytes@.len() as int } else { INSPECTOR_LIMIT as int }) + 15) / 16,
        forall|k: int| 0 <= k < rows@.len() ==> inspector_row_is(bytes@, k, #[trigger] rows@[k]),
{
    let limit = if bytes.len() < INSPECTOR_LIMIT { bytes.len() } else { INSPECTOR_LIMIT };
    let mut rows: Vec<InspectorRow> = Vec::new();
    let mut start: usize = 0;
    while start < limit
        invariant
            limit == (if bytes@.len() < INSPECTOR_LIMIT { bytes@.len() as int } else { INSPECTOR_LIMIT as int }),
            start == 16 * rows@.len(),
            start <= limit + 15,
            forall|k: int| 0 <= k < rows@.len() ==> inspector_row_is(bytes@, k, #[trigger] rows@[k]),
        decreases limit + 16 - start,
    {
        let end = if limit - start > 16 { start + 16 } else { limit };
        let chunk = &bytes[start..end];
        assert(chunk@ == inspector_chunk(bytes@, start as int));
        let mut hex = String::new();
        let mut i: usize = 0;
        while i < 16
            invariant
                i <= 16,
                chunk@.len() <= 16,
                hex@ == hex_cells(chunk@, i as int),
            decreases 16 - i,
        {
            if i == 8 {
                push_char(&mut hex, ' ');
            }
            if i < chunk.len() {
                push_hex2(&mut hex, chunk[i]);
                push_char(&mut hex, ' ');
            } else {
                push_char(&mut hex, ' ');
                push_char(&mut hex, ' ');
                push_char(&mut hex, ' ');
            }
            i = i + 1;
            assert(hex@ =~= hex_cells(chunk@, i as int));
        }
        let mut ascii = String::new();
        let mut j: usize = 0;
        while j < chunk.len()
            invariant
                j <= chunk@.len(),
                ascii@ == chunk@.take(j as int).map_values(|b: u8| inspector_cell(b)),
            decreases chunk@.len() - j,
        {
            let b = chunk[j];
            if 32 <= b && b <= 126 {
                push_char(&mut ascii, b as char);
            } else {
                push_char(&mut ascii, '·');
            }
            j = j + 1;
            assert(ascii@ =~= chunk@.take(j as int).map_values(|b: u8| inspector_cell(b)));
        }
        assert(chunk@.take(chunk@.len() as int) =~= chunk@);
        let ghost old_rows = rows@;
        rows.push(InspectorRow { offset: start, hex, ascii });
        assert forall|k: int| 0 <= k < rows@.len() implies inspector_row_is(bytes@, k, #[trigger] rows@[k]) by {
            if k < old_rows.len() {
                assert(rows@[k] == old_rows[k]);
            }
        }
        start = start + 16;
    }
    rows
}

/// A reassembled stream shows printable ASCII, space, line feed and carriage
/// return as themselves, any other byte as `.`.
pub open spec fn stream_cell(b: u8) -> char {
    if (0x21 <= b <= 0x7E) || b == 0x20 || b == 0x0A || b == 0x0D {
        b as char
    } else {
        '.'
    }
}

/// The reassembled bytes of a stream as text, one character per byte.
pub fn printable_stream(data: &[u8]) -> (out: String)
    ensures
        out@ == data@.map_values(|b: u8| stream_cell(b)),
{
    let mut out = String::new();
    let mut i: usize = 0;
    while i < data.len()
        invariant
            i <= data@.len(),
            out@ == data@.take(i as int).map_values(|b: u8| stream_cell(b)),
        decreases data@.len() - i,
    {
        let b = data[i];
        if (0x21 <= b && b <= 0x7E) || b == 0x20 || b == 0x0A || b == 0x0D {
            push_char(&mut out, b as char);
        } else {
            push_char(&mut out, '.');
        }
        i = i + 1;
        assert(out@ =~= data@.take(i as int).map_values(|b: u8| stream_cell(b)));
    }
    assert(data@.take(data@.len() as int) =~= data@);
    out
}

} // verus!
