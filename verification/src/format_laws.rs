//! How numbers, paths and glyphs are written.

use crate::anim::{glyph, spinner, thinking, AnimKind};
use crate::decimal::{
    double_gap, exact_limit, half_even, human_size, kilo_tenths, mega_tenths, nearest_double,
    one_decimal,
};
use crate::md_detect::{block_mark, markdown};
use crate::pager::pager_line;
use crate::paste_guard::{is_flood, observed, recent, GuardView};
use crate::path::{extension, last_dot, last_named, media_type, named_file};
use crate::seg::ViewportSlot;
use crate::session::Scroll;
use crate::text::{blank, dec, lemma_upto, split, trim, upto};
use crate::text_laws::{lacks, law_finding_text};
use crate::viewport::{is_placed, placed, top_line, Area};
use vstd::prelude::*;

verus! {

/// Rounding goes to the nearest integer, and half way to the even one.
pub proof fn law_rounding_is_to_the_nearest(n: nat, d: nat)
    requires
        d > 0,
    ensures
        2 * n <= 2 * d * half_even(n, d) + d,
        2 * d * half_even(n, d) <= 2 * n + d,
        (2 * n == 2 * d * half_even(n, d) + d || 2 * d * half_even(n, d) == 2 * n + d)
            ==> half_even(n, d) % 2 == 0,
{
    let q = n / d;
    let r = n % d;
    assert(n == d * q + r && r < d) by (nonlinear_arith)
        requires
            d > 0,
            q == n / d,
            r == n % d,
    ;
    let h = half_even(n, d);
    if h == q {
        assert(2 * d * h == 2 * (d * q)) by (nonlinear_arith)
            requires
                h == q,
        ;
    } else {
        assert(2 * d * h == 2 * (d * q) + 2 * d) by (nonlinear_arith)
            requires
                h == q + 1,
        ;
    }
}

/// A number of bytes is written in the unit that fits it, with one decimal
/// that is the nearest, as long as the number can be counted exactly.
pub proof fn law_sizes_are_written_in_their_unit(n: nat)
    requires
        n < exact_limit(),
    ensures
        n < 1024 ==> human_size(n) == dec(n) + seq![' ', 'B'],
        1024 <= n < 1048576 ==> {
            let t = kilo_tenths(n);
            &&& human_size(n) == dec(t / 10) + seq!['.'] + dec(t % 10) + seq![' ', 'K', 'B']
            &&& 20 * n <= 2048 * t + 1024
            &&& 2048 * t <= 20 * n + 1024
        },
        n >= 1048576 ==> {
            let t = mega_tenths(n);
            &&& human_size(n) == dec(t / 10) + seq!['.'] + dec(t % 10) + seq![' ', 'M', 'B']
            &&& 20 * n <= 2097152 * t + 1048576
            &&& 2097152 * t <= 20 * n + 1048576
        },
{
    reveal_strlit(" B");
    reveal_strlit(" KB");
    reveal_strlit(" MB");
    reveal_strlit(".");
    assert(" B"@ =~= seq![' ', 'B']);
    assert(" KB"@ =~= seq![' ', 'K', 'B']);
    assert(" MB"@ =~= seq![' ', 'M', 'B']);
    assert("."@ =~= seq!['.']);
    assert(double_gap(n) == 1);
    assert(n / 1 == n && n % 1 == 0);
    assert(half_even(n, 1) == n);
    assert(nearest_double(n) == n);
    law_rounding_is_to_the_nearest(n * 10, 1024);
    law_rounding_is_to_the_nearest(n * 10, 1048576);
}

/// A number of tenths is written with the last digit behind a point.
pub proof fn law_tenths_are_written(t: nat)
    ensures
        one_decimal(t) == dec(t / 10) + seq!['.'] + dec(t % 10),
{
    reveal_strlit(".");
    assert("."@ =~= seq!['.']);
}

proof fn lemma_split_last(a: Seq<char>, name: Seq<char>)
    requires
        lacks(name, '/'),
    ensures
        split(a + seq!['/'] + name, '/').last() == name,
        split(a + seq!['/'] + name, '/').len() > 0,
    decreases a.len(),
{
    let s = a + seq!['/'] + name;
    lemma_upto(s, '/');
    let k = upto(s, '/') as int;
    assert(s[a.len() as int] == '/');
    assert(k <= a.len());
    let r = s.skip(k + 1);
    if k == a.len() {
        assert(r =~= name);
        lemma_split_none(name);
        assert(split(s, '/') =~= seq![s.take(k)] + seq![name]);
    } else {
        let b = a.skip(k + 1);
        assert(r =~= b + seq!['/'] + name);
        lemma_split_last(b, name);
        assert(split(s, '/') =~= seq![s.take(k)] + split(r, '/'));
    }
}

proof fn lemma_split_none(name: Seq<char>)
    requires
        lacks(name, '/'),
    ensures
        split(name, '/') == seq![name],
{
    lemma_upto(name, '/');
    let k = upto(name, '/') as int;
    if k < name.len() {
        assert(name[k] == '/');
    }
}

/// The file a path names is what stands behind its last slash.
pub proof fn law_file_is_named_last(dir: Seq<char>, name: Seq<char>)
    requires
        lacks(name, '/'),
        name.len() > 0,
        name != seq!['.'],
        name != seq!['.', '.'],
    ensures
        named_file(dir + seq!['/'] + name) == Some(name),
        named_file(name) == Some(name),
{
    reveal_strlit(".");
    reveal_strlit("..");
    assert("."@ =~= seq!['.']);
    assert(".."@ =~= seq!['.', '.']);
    lemma_split_last(dir, name);
    lemma_split_none(name);
    assert(last_named(seq![name]) == Some(name));
}

proof fn lemma_last_dot(s: Seq<char>)
    ensures
        last_dot(s) matches Some(k) ==> 0 <= k < s.len() && s[k] == '.' && forall|j: int|
            k < j < s.len() ==> #[trigger] s[j] != '.',
        last_dot(s) is None ==> lacks(s, '.'),
    decreases s.len(),
{
    if s.len() > 0 && s.last() != '.' {
        let d = s.drop_last();
        lemma_last_dot(d);
        assert forall|j: int| 0 <= j < d.len() implies d[j] == #[trigger] s[j] by {}
    }
}

/// The extension of a file is what stands behind its last dot; a file whose
/// only dot comes first has none, and neither has one without a dot.
pub proof fn law_extension_is_behind_the_dot(dir: Seq<char>, stem: Seq<char>, ext: Seq<char>)
    requires
        lacks(stem, '/'),
        lacks(ext, '/'),
        lacks(ext, '.'),
        stem.len() > 0,
        stem != seq!['.'] || ext.len() > 0,
    ensures
        extension(dir + seq!['/'] + (stem + seq!['.'] + ext)) == ext,
        (lacks(stem, '.')) ==> extension(dir + seq!['/'] + stem) == Seq::<char>::empty(),
{
    let name = stem + seq!['.'] + ext;
    assert(lacks(name, '/'));
    assert(name.len() >= 2);
    if name == seq!['.', '.'] {
        assert(name[0] == '.');
        assert(stem.len() == 1);
        assert(stem =~= seq!['.']);
        assert(ext.len() == 0);
    }
    law_file_is_named_last(dir, name);
    lemma_last_dot(name);
    let n = stem.len() as int;
    assert(name[n] == '.');
    assert forall|j: int| n < j < name.len() implies #[trigger] name[j] != '.' by {
        assert(name[j] == ext[j - n - 1]);
    }
    assert(last_dot(name) == Some(n));
    assert(name.skip(n + 1) =~= ext);
    if lacks(stem, '.') {
        assert(stem[0] != '.');
        law_file_is_named_last(dir, stem);
        lemma_last_dot(stem);
    }
}

/// What is sent along as the type of a file.
pub proof fn law_media_types(ext: Seq<char>)
    ensures
        media_type(seq!['p', 'n', 'g']) == "image/png"@,
        media_type(seq!['j', 'p', 'g']) == "image/jpeg"@,
        media_type(seq!['j', 'p', 'e', 'g']) == "image/jpeg"@,
        media_type(seq!['g', 'i', 'f']) == "image/gif"@,
        media_type(seq!['p', 'd', 'f']) == "application/pdf"@,
        media_type(seq!['j', 's', 'o', 'n']) == "application/json"@,
        media_type(seq!['w', 'e', 'b', 'p']) == "image/webp"@,
        media_type(seq!['s', 'v', 'g']) == "image/svg+xml"@,
        (ext.len() != 3 && ext.len() != 4) ==> media_type(ext) == "text/plain"@,
{
    reveal_strlit("png");
    reveal_strlit("jpg");
    reveal_strlit("jpeg");
    reveal_strlit("gif");
    reveal_strlit("webp");
    reveal_strlit("svg");
    reveal_strlit("pdf");
    reveal_strlit("json");
    assert("png"@ =~= seq!['p', 'n', 'g']);
    assert("jpg"@ =~= seq!['j', 'p', 'g']);
    assert("jpeg"@ =~= seq!['j', 'p', 'e', 'g']);
    assert("gif"@ =~= seq!['g', 'i', 'f']);
    assert("webp"@ =~= seq!['w', 'e', 'b', 'p']);
    assert("svg"@ =~= seq!['s', 'v', 'g']);
    assert("pdf"@ =~= seq!['p', 'd', 'f']);
    assert("json"@ =~= seq!['j', 's', 'o', 'n']);
    assert("png"@[0] == 'p' && "png"@[1] == 'n');
    assert("pdf"@[0] == 'p' && "pdf"@[1] == 'd');
    assert("jpg"@[0] == 'j' && "gif"@[0] == 'g' && "svg"@[0] == 's');
    assert("jpeg"@[0] == 'j' && "jpeg"@[1] == 'p');
    assert("json"@[0] == 'j' && "json"@[1] == 's');
    assert("webp"@[0] == 'w');
}

/// The pager is the one that is set, else the usual one.
pub proof fn law_set_pager_is_used(raw: &str)
    ensures
        !blank(raw@) ==> pager_line(Some(raw)) == trim(raw@),
        blank(raw@) ==> pager_line(Some(raw)) == pager_line(None),
        pager_line(None) == "less -R"@,
{
}

/// A running wheel turns: two frames in a row differ.
pub proof fn law_wheel_turns(frame: int)
    requires
        frame >= 0,
    ensures
        spinner(frame) != spinner(frame + 1),
        thinking(frame) != thinking(frame + 1),
        glyph(AnimKind::Spinner, frame) == Some(spinner(frame)),
        glyph(AnimKind::Thinking, frame) == Some(thinking(frame)),
{
    reveal_strlit("⣾");
    reveal_strlit("⣽");
    reveal_strlit("⣻");
    reveal_strlit("⢿");
    reveal_strlit("⡿");
    reveal_strlit("⣟");
    reveal_strlit("⣯");
    reveal_strlit("⣷");
    reveal_strlit("◐");
    reveal_strlit("◓");
    reveal_strlit("◑");
    reveal_strlit("◒");
    assert(spinner(frame)[0] != spinner(frame + 1)[0]);
    assert(thinking(frame)[0] != thinking(frame + 1)[0]);
}

/// Every glyph stands in the cell of its slot, and every slot that has a
/// glyph and a cell in the area is drawn.
pub proof fn law_glyphs_stand_in_their_cells(
    area: Area,
    slots: Seq<ViewportSlot>,
    frame: u64,
    n: nat,
    k: int,
)
    requires
        0 <= k < n <= slots.len(),
        area.x + area.width <= u16::MAX,
        area.y + area.height <= u16::MAX,
        glyph(slots[k].kind, frame as int) is Some,
        slots[k].col + 1 < area.width,
        slots[k].row < area.height,
    ensures
        exists|j: int|
            0 <= j < placed(area, slots, frame, n).len() && ({
                let p = #[trigger] placed(area, slots, frame, n)[j];
                &&& p.x == area.x + slots[k].col
                &&& p.y == area.y + slots[k].row
                &&& Some(p.glyph) == glyph(slots[k].kind, frame as int)
            }),
    decreases n,
{
    let all = placed(area, slots, frame, n);
    let rest = placed(area, slots, frame, (n - 1) as nat);
    if k == n - 1 {
        assert(is_placed(area, slots[k], frame));
        assert(all.last().x == area.x + slots[k].col);
        assert(all[all.len() - 1].y == area.y + slots[k].row);
    } else {
        law_glyphs_stand_in_their_cells(area, slots, frame, (n - 1) as nat, k);
        let j = choose|j: int|
            0 <= j < rest.len() && ({
                let p = #[trigger] rest[j];
                &&& p.x == area.x + slots[k].col
                &&& p.y == area.y + slots[k].row
                &&& Some(p.glyph) == glyph(slots[k].kind, frame as int)
            });
        assert(all[j] == rest[j]);
    }
}

/// Scrolled up by some lines, the window shows exactly that many lines less of
/// the end, and never goes above the first line.
pub proof fn law_scrolling_goes_up(total: nat, height: usize, scroll: Scroll)
    requires
        total <= usize::MAX,
        !scroll.follow,
    ensures
        height + scroll.offset <= total ==> top_line(total, height, scroll) + height + scroll.offset
            == total,
        height + scroll.offset > total ==> top_line(total, height, scroll) == 0,
{
}

/// Only keys that came within the window count as a flood, and all of them do:
/// those gone are the oldest, and too old.
pub proof fn law_recent_keys_count(taps: Seq<u64>, now: u64)
    ensures
        exists|k: int|
            0 <= k <= taps.len() && recent(taps, now) == #[trigger] taps.skip(k) && (forall|j: int|
                0 <= j < k ==> now - (#[trigger] taps[j]) > 200) && (k < taps.len() ==> now
                - taps[k] <= 200),
    decreases taps.len(),
{
    if taps.len() > 0 && now - taps[0] > 200 {
        let r = taps.drop_first();
        law_recent_keys_count(r, now);
        let k = choose|k: int|
            0 <= k <= r.len() && recent(r, now) == #[trigger] r.skip(k) && (forall|j: int|
                0 <= j < k ==> now - (#[trigger] r[j]) > 200) && (k < r.len() ==> now - r[k]
                <= 200);
        assert(r.skip(k) =~= taps.skip(k + 1));
        assert forall|j: int| 0 <= j < k + 1 implies now - (#[trigger] taps[j]) > 200 by {
            if j > 0 {
                assert(taps[j] == r[j - 1]);
            }
        }
        if k + 1 < taps.len() {
            assert(taps[k + 1] == r[k]);
        }
        assert(recent(taps, now) == taps.skip(k + 1));
    } else {
        assert(taps.skip(0) =~= taps);
    }
}

/// A key is counted when it comes, and a flood is forty keys.
pub proof fn law_key_is_counted(g: GuardView, now: u64)
    ensures
        observed(g, now).taps == recent(g.taps, now).push(now),
        is_flood(g) <==> g.taps.len() >= 40,
{
}

/// Texts with the marks of Markdown are told from plain ones.
pub proof fn law_marks_make_markdown(a: Seq<char>, b: Seq<char>, line: Seq<char>)
    ensures
        markdown(a + seq!['`'] + b),
        markdown(a + seq!['*', '*'] + b),
        markdown(a + seq!['~', '~'] + b),
        block_mark(seq!['#', ' '] + line),
        block_mark(seq!['-', ' '] + line),
        block_mark(seq!['>', ' '] + line),
        block_mark(seq!['1', '.', ' '] + line),
{
    reveal_strlit("`");
    reveal_strlit("**");
    reveal_strlit("~~");
    reveal_strlit("# ");
    reveal_strlit("- ");
    reveal_strlit("> ");
    reveal_strlit("1. ");
    assert("`"@ =~= seq!['`']);
    assert("**"@ =~= seq!['*', '*']);
    assert("~~"@ =~= seq!['~', '~']);
    assert("# "@ =~= seq!['#', ' ']);
    assert("- "@ =~= seq!['-', ' ']);
    assert("> "@ =~= seq!['>', ' ']);
    assert("1. "@ =~= seq!['1', '.', ' ']);
    law_finding_text(a + seq!['`'] + b, seq!['`']);
    law_finding_text(a + seq!['*', '*'] + b, seq!['*', '*']);
    law_finding_text(a + seq!['~', '~'] + b, seq!['~', '~']);
    assert((seq!['#', ' '] + line).take(2) =~= seq!['#', ' ']);
    assert((seq!['-', ' '] + line).take(2) =~= seq!['-', ' ']);
    assert((seq!['>', ' '] + line).take(2) =~= seq!['>', ' ']);
    assert((seq!['1', '.', ' '] + line).take(3) =~= seq!['1', '.', ' ']);
}

} // verus!
