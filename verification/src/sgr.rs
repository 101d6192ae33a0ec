//! What SGR ("select graphic rendition") sequences do to a terminal's
//! attributes, and the proof that the redraw's SGR sequences give each
//! cell its own attributes.
use crate::term_emulator::{
    flag_bold, flag_dim, flag_double_underline, flag_hidden, flag_inverse, flag_italic,
    flag_strikeout, flag_underline, initial_sgr_state, named_background, named_foreground,
    sgr_bytes, SgrState, TermColor, fg_param, bg_param, named_fg_code, named_bg_code, join_params,
    push_if, flag_items, incremental_items, incremental_sgr, partial_sgr, reset_sgr,
    reset_flag_params, flag_param, fg_after_reset, bg_after_reset, digit_item, has, sgr_mask,
    render_cell, char_bytes, CellSnapshot, flag_wide_char_spacer,
};
use vstd::utf8::encode_utf8;
use crate::text::decimal;
use vstd::prelude::*;

verus! {

/// SGR parameters written in decimal and separated by `;`.
pub open spec fn params_text(ns: Seq<nat>) -> Seq<u8>
    decreases ns.len(),
{
    if ns.len() == 0 {
        Seq::empty()
    } else if ns.len() == 1 {
        decimal(ns[0])
    } else {
        params_text(ns.drop_last()) + seq![0x3bu8] + decimal(ns.last())
    }
}

/// The SGR sequence `ESC [ params m`.
pub open spec fn sgr_sequence(ns: Seq<nat>) -> Seq<u8> {
    seq![0x1bu8, 0x5bu8] + params_text(ns) + seq![0x6du8]
}

/// The attributes with the foreground (`fg`) or background set to `c`.
pub open spec fn with_color(st: SgrState, fg: bool, c: TermColor) -> SgrState {
    if fg {
        SgrState { fg: c, ..st }
    } else {
        SgrState { bg: c, ..st }
    }
}

/// The attributes with `bit` added to the flags.
pub open spec fn with_flag(st: SgrState, bit: u16) -> SgrState {
    SgrState { flags: st.flags | bit, ..st }
}

/// What one plain SGR parameter does: 0 resets; 1, 2, 3, 4, 7, 8, 9 and 21
/// turn on bold, dim, italic, underline, inverse, hidden, strikeout and
/// double underline; 30-37 and 90-97 select a named foreground, 39 the
/// default one; 40-47 and 100-107 a named background, 49 the default one.
/// Other parameters change nothing here.
pub open spec fn sgr_param_effect(st: SgrState, n: nat) -> SgrState {
    if n == 0 {
        initial_sgr_state()
    } else if n == 1 {
        with_flag(st, flag_bold())
    } else if n == 2 {
        with_flag(st, flag_dim())
    } else if n == 3 {
        with_flag(st, flag_italic())
    } else if n == 4 {
        with_flag(st, flag_underline())
    } else if n == 7 {
        with_flag(st, flag_inverse())
    } else if n == 8 {
        with_flag(st, flag_hidden())
    } else if n == 9 {
        with_flag(st, flag_strikeout())
    } else if n == 21 {
        with_flag(st, flag_double_underline())
    } else if 30 <= n <= 37 {
        with_color(st, true, TermColor::Named((n - 30) as u16))
    } else if n == 39 {
        with_color(st, true, TermColor::Named(named_foreground()))
    } else if 90 <= n <= 97 {
        with_color(st, true, TermColor::Named((n - 90 + 8) as u16))
    } else if 40 <= n <= 47 {
        with_color(st, false, TermColor::Named((n - 40) as u16))
    } else if n == 49 {
        with_color(st, false, TermColor::Named(named_background()))
    } else if 100 <= n <= 107 {
        with_color(st, false, TermColor::Named((n - 100 + 8) as u16))
    } else {
        st
    }
}

/// Whether `ns` starts with `38;5;i` or `48;5;i`.
pub open spec fn starts_indexed(ns: Seq<nat>) -> bool {
    (ns[0] == 38 || ns[0] == 48) && ns.len() >= 3 && ns[1] == 5
}

/// Whether `ns` starts with `38;2;r;g;b` or `48;2;r;g;b`.
pub open spec fn starts_rgb(ns: Seq<nat>) -> bool {
    (ns[0] == 38 || ns[0] == 48) && ns.len() >= 5 && ns[1] == 2
}

/// The attributes after the SGR parameters `ns`, applied in order from
/// `st`; `38`/`48` with `5;i` or `2;r;g;b` select an indexed or RGB color.
pub open spec fn sgr_effect(st: SgrState, ns: Seq<nat>) -> SgrState
    decreases ns.len(),
{
    if ns.len() == 0 {
        st
    } else if starts_indexed(ns) {
        sgr_effect(with_color(st, ns[0] == 38, TermColor::Indexed(ns[2] as u8)), ns.skip(3))
    } else if starts_rgb(ns) {
        sgr_effect(
            with_color(st, ns[0] == 38, TermColor::Spec(ns[2] as u8, ns[3] as u8, ns[4] as u8)),
            ns.skip(5),
        )
    } else {
        sgr_effect(sgr_param_effect(st, ns[0]), ns.skip(1))
    }
}

/// The flags that SGR shows: bold, dim, italic, underline, inverse, hidden
/// and strikeout.
pub open spec fn shown_flags() -> u16 {
    0x38f
}

/// Two attribute states look the same on a terminal.
pub open spec fn same_look(a: SgrState, b: SgrState) -> bool {
    &&& a.fg == b.fg
    &&& a.bg == b.bg
    &&& a.flags & shown_flags() == b.flags & shown_flags()
}

/// A foreground that SGR can select: one of the sixteen named colors or
/// the default, an indexed color, or an RGB color.
pub open spec fn sgr_fg_ok(c: TermColor) -> bool {
    match c {
        TermColor::Named(n) => n < 16 || n == named_foreground(),
        _ => true,
    }
}

/// A background that SGR can select.
pub open spec fn sgr_bg_ok(c: TermColor) -> bool {
    match c {
        TermColor::Named(n) => n < 16 || n == named_background(),
        _ => true,
    }
}

/// Whether `ns` reads as whole parameters: no `38` or `48` without its
/// color after it.
pub open spec fn whole(ns: Seq<nat>) -> bool
    decreases ns.len(),
{
    if ns.len() == 0 {
        true
    } else if starts_indexed(ns) {
        whole(ns.skip(3))
    } else if starts_rgb(ns) {
        whole(ns.skip(5))
    } else if ns[0] == 38 || ns[0] == 48 {
        false
    } else {
        whole(ns.skip(1))
    }
}

proof fn lemma_params_text_concat(a: Seq<nat>, b: Seq<nat>)
    requires
        a.len() > 0,
        b.len() > 0,
    ensures
        params_text(a + b) == params_text(a) + seq![0x3bu8] + params_text(b),
    decreases b.len(),
{
    if b.len() == 1 {
        assert((a + b).drop_last() =~= a);
        assert((a + b).last() == b[0]);
    } else {
        let b1 = b.drop_last();
        lemma_params_text_concat(a, b1);
        assert((a + b).drop_last() =~= a + b1);
        assert((a + b).last() == b.last());
        assert(params_text(a + b) =~= params_text(a) + seq![0x3bu8] + params_text(b));
    }
}

proof fn lemma_effect_concat(st: SgrState, a: Seq<nat>, b: Seq<nat>)
    requires
        whole(a),
    ensures
        sgr_effect(st, a + b) == sgr_effect(sgr_effect(st, a), b),
        whole(b) ==> whole(a + b),
    decreases a.len(),
{
    if a.len() == 0 {
        assert(a + b =~= b);
    } else {
        let ab = a + b;
        assert(ab[0] == a[0]);
        if starts_indexed(a) {
            assert(ab[1] == a[1] && ab[2] == a[2]);
            assert(ab.skip(3) =~= a.skip(3) + b);
            lemma_effect_concat(
                with_color(st, a[0] == 38, TermColor::Indexed(a[2] as u8)),
                a.skip(3),
                b,
            );
        } else if starts_rgb(a) {
            assert(ab[1] == a[1] && ab[2] == a[2] && ab[3] == a[3] && ab[4] == a[4]);
            assert(!starts_indexed(ab));
            assert(ab.skip(5) =~= a.skip(5) + b);
            lemma_effect_concat(
                with_color(st, a[0] == 38, TermColor::Spec(a[2] as u8, a[3] as u8, a[4] as u8)),
                a.skip(5),
                b,
            );
        } else {
            assert(!starts_indexed(ab) && !starts_rgb(ab));
            assert(ab.skip(1) =~= a.skip(1) + b);
            lemma_effect_concat(sgr_param_effect(st, a[0]), a.skip(1), b);
        }
    }
}


/// The parameters that select color `c` as foreground (`fg`) or
/// background, as the redraw writes them.
spec fn color_units(c: TermColor, fg: bool) -> Seq<nat> {
    match c {
        TermColor::Named(n) => if fg {
            if n == named_foreground() {
                seq![39nat]
            } else {
                seq![named_fg_code(n)]
            }
        } else {
            if n == named_background() {
                seq![49nat]
            } else {
                seq![named_bg_code(n)]
            }
        },
        TermColor::Spec(r, g, b) => seq![if fg { 38nat } else { 48nat }, 2nat, r as nat, g as nat, b as nat],
        TermColor::Indexed(i) => seq![if fg { 38nat } else { 48nat }, 5nat, i as nat],
    }
}

proof fn lemma_single_text(n: nat)
    ensures
        params_text(seq![n]) == decimal(n),
{
}

proof fn lemma_one_param(st: SgrState, x: nat)
    requires
        x != 38 && x != 48,
    ensures
        whole(seq![x]),
        sgr_effect(st, seq![x]) == sgr_param_effect(st, x),
        params_text(seq![x]) == decimal(x),
{
    let u = seq![x];
    assert(u.skip(1) =~= Seq::<nat>::empty());
    assert(whole(u.skip(1)));
    assert(sgr_effect(sgr_param_effect(st, x), Seq::<nat>::empty()) == sgr_param_effect(st, x));
    assert(!starts_indexed(u) && !starts_rgb(u));
}

proof fn lemma_named_units(st: SgrState, n: u16, fg: bool)
    requires
        fg ==> sgr_fg_ok(TermColor::Named(n)),
        !fg ==> sgr_bg_ok(TermColor::Named(n)),
    ensures
        color_units(TermColor::Named(n), fg).len() > 0,
        whole(color_units(TermColor::Named(n), fg)),
        params_text(color_units(TermColor::Named(n), fg)) == if fg {
            fg_param(TermColor::Named(n))
        } else {
            bg_param(TermColor::Named(n))
        },
        sgr_effect(st, color_units(TermColor::Named(n), fg)) == with_color(st, fg, TermColor::Named(n)),
{
    let u = color_units(TermColor::Named(n), fg);
    let x = u[0];
    assert(u =~= seq![x]);
    lemma_one_param(st, x);
    if fg && n == named_foreground() {
        reveal_with_fuel(decimal, 2);
        assert(decimal(39) =~= seq![0x33u8, 0x39u8]);
    } else if !fg && n == named_background() {
        reveal_with_fuel(decimal, 2);
        assert(decimal(49) =~= seq![0x34u8, 0x39u8]);
    }
}

proof fn lemma_spec_units(st: SgrState, r: u8, g: u8, b: u8, fg: bool)
    ensures
        color_units(TermColor::Spec(r, g, b), fg).len() > 0,
        whole(color_units(TermColor::Spec(r, g, b), fg)),
        params_text(color_units(TermColor::Spec(r, g, b), fg)) == if fg {
            fg_param(TermColor::Spec(r, g, b))
        } else {
            bg_param(TermColor::Spec(r, g, b))
        },
        sgr_effect(st, color_units(TermColor::Spec(r, g, b), fg)) == with_color(st, fg, TermColor::Spec(r, g, b)),
{
    let u = color_units(TermColor::Spec(r, g, b), fg);
    let base: nat = if fg { 38 } else { 48 };
    let s1 = seq![base];
    let s2 = s1 + seq![2nat];
    let s3 = s2 + seq![r as nat];
    let s4 = s3 + seq![g as nat];
    lemma_params_text_concat(s1, seq![2nat]);
    lemma_params_text_concat(s2, seq![r as nat]);
    lemma_params_text_concat(s3, seq![g as nat]);
    lemma_params_text_concat(s4, seq![b as nat]);
    assert(u =~= s4 + seq![b as nat]);
    lemma_single_text(base);
    lemma_single_text(2);
    lemma_single_text(r as nat);
    lemma_single_text(g as nat);
    lemma_single_text(b as nat);
    assert(decimal(2) =~= seq![0x32u8]);
    assert(params_text(u) =~= decimal(base) + seq![0x3bu8, 0x32u8, 0x3bu8] + decimal(r as nat) + seq![0x3bu8]
        + decimal(g as nat) + seq![0x3bu8] + decimal(b as nat));
    assert(u.skip(5) =~= Seq::<nat>::empty());
    assert(whole(u.skip(5)));
    assert(!starts_indexed(u));
    let c = with_color(st, fg, TermColor::Spec(r, g, b));
    assert(sgr_effect(c, Seq::<nat>::empty()) == c);
    assert(u[2] as u8 == r && u[3] as u8 == g && u[4] as u8 == b);
}

proof fn lemma_indexed_units(st: SgrState, i: u8, fg: bool)
    ensures
        color_units(TermColor::Indexed(i), fg).len() > 0,
        whole(color_units(TermColor::Indexed(i), fg)),
        params_text(color_units(TermColor::Indexed(i), fg)) == if fg {
            fg_param(TermColor::Indexed(i))
        } else {
            bg_param(TermColor::Indexed(i))
        },
        sgr_effect(st, color_units(TermColor::Indexed(i), fg)) == with_color(st, fg, TermColor::Indexed(i)),
{
    let u = color_units(TermColor::Indexed(i), fg);
    let base: nat = if fg { 38 } else { 48 };
    let s1 = seq![base];
    let s2 = s1 + seq![5nat];
    lemma_params_text_concat(s1, seq![5nat]);
    lemma_params_text_concat(s2, seq![i as nat]);
    assert(u =~= s2 + seq![i as nat]);
    lemma_single_text(base);
    lemma_single_text(5);
    lemma_single_text(i as nat);
    assert(decimal(5) =~= seq![0x35u8]);
    assert(params_text(u) =~= decimal(base) + seq![0x3bu8, 0x35u8, 0x3bu8] + decimal(i as nat));
    assert(u.skip(3) =~= Seq::<nat>::empty());
    assert(whole(u.skip(3)));
    let c = with_color(st, fg, TermColor::Indexed(i));
    assert(sgr_effect(c, Seq::<nat>::empty()) == c);
    assert(u[2] as u8 == i);
}

proof fn lemma_color_units(st: SgrState, c: TermColor, fg: bool)
    requires
        fg ==> sgr_fg_ok(c),
        !fg ==> sgr_bg_ok(c),
    ensures
        color_units(c, fg).len() > 0,
        whole(color_units(c, fg)),
        params_text(color_units(c, fg)) == if fg {
            fg_param(c)
        } else {
            bg_param(c)
        },
        sgr_effect(st, color_units(c, fg)) == with_color(st, fg, c),
{
    match c {
        TermColor::Named(n) => lemma_named_units(st, n, fg),
        TermColor::Spec(r, g, b) => lemma_spec_units(st, r, g, b, fg),
        TermColor::Indexed(i) => lemma_indexed_units(st, i, fg),
    }
}


proof fn lemma_push_item(
    st: SgrState,
    items: Seq<Seq<u8>>,
    acc: Seq<nat>,
    cond: bool,
    u: Seq<nat>,
)
    requires
        join_params(items) == params_text(acc),
        (items.len() == 0) == (acc.len() == 0),
        whole(acc),
        whole(u),
        u.len() > 0,
    ensures
        ({
            let items2 = push_if(items, cond, params_text(u));
            let acc2 = if cond {
                acc + u
            } else {
                acc
            };
            &&& join_params(items2) == params_text(acc2)
            &&& (items2.len() == 0) == (acc2.len() == 0)
            &&& whole(acc2)
            &&& sgr_effect(st, acc2) == if cond {
                sgr_effect(sgr_effect(st, acc), u)
            } else {
                sgr_effect(st, acc)
            }
        }),
{
    if cond {
        let items2 = items.push(params_text(u));
        lemma_effect_concat(st, acc, u);
        if items.len() == 0 {
            assert(acc + u =~= u);
            assert(join_params(items2) == items2[0]);
        } else {
            assert(items2.drop_last() =~= items);
            lemma_params_text_concat(acc, u);
        }
    }
}

proof fn lemma_push_param(st: SgrState, text: Seq<u8>, acc: Seq<nat>, cond: bool, u: Seq<nat>)
    requires
        text == params_text(acc),
        acc.len() > 0,
        whole(acc),
        whole(u),
        u.len() > 0,
    ensures
        ({
            let acc2 = if cond {
                acc + u
            } else {
                acc
            };
            &&& text + (if cond {
                seq![0x3bu8] + params_text(u)
            } else {
                Seq::empty()
            }) == params_text(acc2)
            &&& acc2.len() > 0
            &&& whole(acc2)
            &&& sgr_effect(st, acc2) == if cond {
                sgr_effect(sgr_effect(st, acc), u)
            } else {
                sgr_effect(st, acc)
            }
        }),
{
    if cond {
        lemma_effect_concat(st, acc, u);
        lemma_params_text_concat(acc, u);
        assert(text + (seq![0x3bu8] + params_text(u)) =~= params_text(acc) + seq![0x3bu8] + params_text(u));
    } else {
        assert(text + Seq::<u8>::empty() =~= text);
    }
}

/// Whether `b` is one of the flag bits that SGR turns on.
spec fn sgr_bit(b: u16) -> bool {
    b == 0x1 || b == 0x2 || b == 0x4 || b == 0x8 || b == 0x80 || b == 0x100 || b == 0x200 || b == 0x800
}

proof fn lemma_flag_step(f: u16, added: u16, m: u16, b: u16)
    requires
        sgr_bit(b),
    ensures
        (if added & b != 0 {
            (f | (added & m)) | b
        } else {
            f | (added & m)
        }) == f | (added & (m | b)),
{
    assert((if added & b != 0 {
        (f | (added & m)) | b
    } else {
        f | (added & m)
    }) == f | (added & (m | b))) by (bit_vector)
        requires
            b == 0x1 || b == 0x2 || b == 0x4 || b == 0x8 || b == 0x80 || b == 0x100 || b == 0x200 || b == 0x800,
    ;
}

spec fn acc_push(acc: Seq<nat>, cond: bool, u: Seq<nat>) -> Seq<nat> {
    if cond {
        acc + u
    } else {
        acc
    }
}

/// `cur` with the flags of `added` under `m` turned on.
spec fn with_added(cur: SgrState, added: u16, m: u16) -> SgrState {
    SgrState { flags: cur.flags | (added & m), ..cur }
}

/// SGR parameter `n` turns on flag `bit`.
spec fn flag_code(bit: u16, n: nat) -> bool {
    ||| bit == 0x2 && n == 1
    ||| bit == 0x80 && n == 2
    ||| bit == 0x4 && n == 3
    ||| bit == 0x8 && n == 4
    ||| bit == 0x1 && n == 7
    ||| bit == 0x100 && n == 8
    ||| bit == 0x200 && n == 9
    ||| bit == 0x800 && n == 21
}

proof fn lemma_flag_code(st: SgrState, bit: u16, n: nat)
    requires
        flag_code(bit, n),
    ensures
        sgr_bit(bit),
        n != 38 && n != 48,
        whole(seq![n]),
        sgr_effect(st, seq![n]) == with_flag(st, bit),
        params_text(seq![n]) == decimal(n),
{
    lemma_one_param(st, n);
}

/// One flag of an incremental update.
proof fn lemma_flag_item(
    cur: SgrState,
    added: u16,
    items: Seq<Seq<u8>>,
    acc: Seq<nat>,
    m: u16,
    bit: u16,
    n: nat,
)
    requires
        join_params(items) == params_text(acc),
        (items.len() == 0) == (acc.len() == 0),
        whole(acc),
        sgr_effect(cur, acc) == with_added(cur, added, m),
        flag_code(bit, n),
    ensures
        ({
            let items2 = push_if(items, has(added, bit), decimal(n));
            let acc2 = acc_push(acc, has(added, bit), seq![n]);
            &&& join_params(items2) == params_text(acc2)
            &&& (items2.len() == 0) == (acc2.len() == 0)
            &&& whole(acc2)
            &&& sgr_effect(cur, acc2) == with_added(cur, added, m | bit)
        }),
{
    lemma_flag_code(sgr_effect(cur, acc), bit, n);
    lemma_push_item(cur, items, acc, has(added, bit), seq![n]);
    lemma_flag_step(cur.flags, added, m, bit);
}

/// One flag re-applied after a reset.
proof fn lemma_flag_param(
    nf: u16,
    text: Seq<u8>,
    acc: Seq<nat>,
    m: u16,
    bit: u16,
    n: nat,
)
    requires
        text == params_text(acc),
        acc.len() > 0,
        whole(acc),
        sgr_effect(initial_sgr_state(), acc.skip(1)) == with_added(initial_sgr_state(), nf, m),
        acc[0] == 0,
        flag_code(bit, n),
    ensures
        ({
            let acc2 = acc_push(acc, has(nf, bit), seq![n]);
            &&& text + flag_param(nf, bit, decimal(n)) == params_text(acc2)
            &&& acc2.len() > 0
            &&& acc2[0] == 0
            &&& whole(acc2)
            &&& sgr_effect(initial_sgr_state(), acc2.skip(1)) == with_added(initial_sgr_state(), nf, m | bit)
        }),
{
    let init = initial_sgr_state();
    let tail = acc.skip(1);
    lemma_flag_code(sgr_effect(init, tail), bit, n);
    lemma_push_param(init, text, acc, has(nf, bit), seq![n]);
    lemma_whole_tail(acc);
    lemma_effect_concat(init, tail, seq![n]);
    assert((acc + seq![n]).skip(1) =~= tail + seq![n]);
    lemma_flag_step(0, nf, m, bit);
    assert(init.flags == 0);
    assert((0u16 | (nf & m)) == nf & m) by (bit_vector);
    assert((0u16 | (nf & (m | bit))) == nf & (m | bit)) by (bit_vector);
}

/// A color re-applied after a reset, when it is not the default.
proof fn lemma_color_param(
    st: SgrState,
    text: Seq<u8>,
    acc: Seq<nat>,
    c: TermColor,
    fg: bool,
)
    requires
        text == params_text(acc),
        acc.len() > 0,
        acc[0] == 0,
        whole(acc),
        fg ==> sgr_fg_ok(c),
        !fg ==> sgr_bg_ok(c),
        sgr_effect(initial_sgr_state(), acc.skip(1)) == st,
    ensures
        ({
            let dflt = if fg {
                TermColor::Named(named_foreground())
            } else {
                TermColor::Named(named_background())
            };
            let acc2 = acc_push(acc, c != dflt, color_units(c, fg));
            &&& text + (if fg {
                fg_after_reset(c)
            } else {
                bg_after_reset(c)
            }) == params_text(acc2)
            &&& acc2.len() > 0
            &&& acc2[0] == 0
            &&& whole(acc2)
            &&& sgr_effect(initial_sgr_state(), acc2.skip(1)) == if c != dflt {
                with_color(st, fg, c)
            } else {
                st
            }
        }),
{
    let init = initial_sgr_state();
    let u = color_units(c, fg);
    let dflt = if fg {
        TermColor::Named(named_foreground())
    } else {
        TermColor::Named(named_background())
    };
    lemma_color_units(st, c, fg);
    lemma_push_param(init, text, acc, c != dflt, u);
    lemma_whole_tail(acc);
    lemma_effect_concat(init, acc.skip(1), u);
    assert((acc + u).skip(1) =~= acc.skip(1) + u);
    if c == dflt {
        assert(text + Seq::<u8>::empty() =~= text);
    }
}

proof fn lemma_whole_tail(acc: Seq<nat>)
    requires
        whole(acc),
        acc.len() > 0,
        acc[0] == 0,
    ensures
        whole(acc.skip(1)),
        forall|st: SgrState| sgr_effect(st, acc) == sgr_effect(initial_sgr_state(), acc.skip(1)),
{
    assert(!starts_indexed(acc) && !starts_rgb(acc));
    assert forall|st: SgrState| sgr_effect(st, acc) == sgr_effect(initial_sgr_state(), acc.skip(1)) by {
        assert(sgr_param_effect(st, 0) == initial_sgr_state());
    }
}

proof fn lemma_small_decimals()
    ensures
        decimal(0) == seq![0x30u8],
        decimal(1) == seq![0x31u8] && decimal(1) == digit_item(0x31),
        decimal(2) == seq![0x32u8] && decimal(2) == digit_item(0x32),
        decimal(3) == seq![0x33u8] && decimal(3) == digit_item(0x33),
        decimal(4) == seq![0x34u8] && decimal(4) == digit_item(0x34),
        decimal(7) == seq![0x37u8] && decimal(7) == digit_item(0x37),
        decimal(8) == seq![0x38u8] && decimal(8) == digit_item(0x38),
        decimal(9) == seq![0x39u8] && decimal(9) == digit_item(0x39),
        decimal(21) == seq![0x32u8, 0x31u8],
{
    reveal_with_fuel(decimal, 2);
    assert(decimal(0) =~= seq![0x30u8]);
    assert(decimal(1) =~= seq![0x31u8]);
    assert(decimal(2) =~= seq![0x32u8]);
    assert(decimal(3) =~= seq![0x33u8]);
    assert(decimal(4) =~= seq![0x34u8]);
    assert(decimal(7) =~= seq![0x37u8]);
    assert(decimal(8) =~= seq![0x38u8]);
    assert(decimal(9) =~= seq![0x39u8]);
    assert(decimal(21) =~= seq![0x32u8, 0x31u8]);
}

/// The parameters of the flags an incremental update adds.
spec fn added_units(added: u16) -> Seq<nat> {
    let a1 = acc_push(Seq::empty(), has(added, 0x2), seq![1nat]);
    let a2 = acc_push(a1, has(added, 0x80), seq![2nat]);
    let a3 = acc_push(a2, has(added, 0x4), seq![3nat]);
    let a4 = acc_push(a3, has(added, 0x8), seq![4nat]);
    let a5 = acc_push(a4, has(added, 0x1), seq![7nat]);
    let a6 = acc_push(a5, has(added, 0x100), seq![8nat]);
    acc_push(a6, has(added, 0x200), seq![9nat])
}

proof fn lemma_added_units(cur: SgrState, added: u16)
    ensures
        join_params(flag_items(added)) == params_text(added_units(added)),
        (flag_items(added).len() == 0) == (added_units(added).len() == 0),
        whole(added_units(added)),
        sgr_effect(cur, added_units(added)) == with_added(cur, added, 0x38f),
{
    let cf = cur.flags;
    let i0 = Seq::<Seq<u8>>::empty();
    let a0 = Seq::<nat>::empty();
    assert(cf | (added & 0) == cf) by (bit_vector);
    assert(with_added(cur, added, 0) == cur);
    assert(sgr_effect(cur, a0) == cur);
    lemma_small_decimals();
    assert((0u16 | 0x2u16) == 0x2u16) by (bit_vector);
    lemma_flag_item(cur, added, i0, a0, 0, 0x2, 1);
    let i1 = push_if(i0, has(added, 0x2), decimal(1));
    let a1 = acc_push(a0, has(added, 0x2), seq![1nat]);
    lemma_flag_item(cur, added, i1, a1, 0x2, 0x80, 2);
    let i2 = push_if(i1, has(added, 0x80), decimal(2));
    let a2 = acc_push(a1, has(added, 0x80), seq![2nat]);
    assert((0x2u16 | 0x80u16) == 0x82u16) by (bit_vector);
    lemma_flag_item(cur, added, i2, a2, 0x82, 0x4, 3);
    let i3 = push_if(i2, has(added, 0x4), decimal(3));
    let a3 = acc_push(a2, has(added, 0x4), seq![3nat]);
    assert((0x82u16 | 0x4u16) == 0x86u16) by (bit_vector);
    lemma_flag_item(cur, added, i3, a3, 0x86, 0x8, 4);
    let i4 = push_if(i3, has(added, 0x8), decimal(4));
    let a4 = acc_push(a3, has(added, 0x8), seq![4nat]);
    assert((0x86u16 | 0x8u16) == 0x8eu16) by (bit_vector);
    lemma_flag_item(cur, added, i4, a4, 0x8e, 0x1, 7);
    let i5 = push_if(i4, has(added, 0x1), decimal(7));
    let a5 = acc_push(a4, has(added, 0x1), seq![7nat]);
    assert((0x8eu16 | 0x1u16) == 0x8fu16) by (bit_vector);
    lemma_flag_item(cur, added, i5, a5, 0x8f, 0x100, 8);
    let i6 = push_if(i5, has(added, 0x100), decimal(8));
    let a6 = acc_push(a5, has(added, 0x100), seq![8nat]);
    assert((0x8fu16 | 0x100u16) == 0x18fu16) by (bit_vector);
    lemma_flag_item(cur, added, i6, a6, 0x18f, 0x200, 9);
    assert((0x18fu16 | 0x200u16) == 0x38fu16) by (bit_vector);
}

/// The incremental case of `sgr_bytes`: nothing has to be turned off.
proof fn lemma_incremental_takes_effect(fg: TermColor, bg: TermColor, flags: u16, cur: SgrState)
    requires
        sgr_fg_ok(fg),
        sgr_bg_ok(bg),
        (cur.flags & sgr_mask()) & !(flags & sgr_mask()) == 0,
    ensures
        ({
            let b = incremental_sgr(incremental_items(fg, bg, flags & sgr_mask(), cur));
            let target = SgrState { fg, bg, flags };
            (b.len() == 0 && same_look(cur, target)) || exists|ns: Seq<nat>|
                b == sgr_sequence(ns) && same_look(sgr_effect(cur, ns), target)
        }),
{
    let nf = flags & sgr_mask();
    let cf = cur.flags;
    let added = nf & !(cf & sgr_mask());
    assert(sgr_mask() == 0x7b8f);
    lemma_added_units(cur, added);
    let i7 = flag_items(added);
    let a7 = added_units(added);
    let s7 = with_added(cur, added, 0x38f);
    lemma_color_units(s7, fg, true);
    lemma_push_item(cur, i7, a7, fg != cur.fg, color_units(fg, true));
    let i8 = push_if(i7, fg != cur.fg, fg_param(fg));
    let a8 = acc_push(a7, fg != cur.fg, color_units(fg, true));
    let s8 = if fg != cur.fg {
        with_color(s7, true, fg)
    } else {
        s7
    };
    lemma_color_units(s8, bg, false);
    lemma_push_item(cur, i8, a8, bg != cur.bg, color_units(bg, false));
    let i9 = push_if(i8, bg != cur.bg, bg_param(bg));
    let a9 = acc_push(a8, bg != cur.bg, color_units(bg, false));
    let s9 = if bg != cur.bg {
        with_color(s8, false, bg)
    } else {
        s8
    };
    assert(i9 == incremental_items(fg, bg, nf, cur));
    assert(sgr_effect(cur, a9) == s9);
    let target = SgrState { fg, bg, flags };
    assert((cf | (added & 0x38f)) & 0x38f == flags & 0x38f) by (bit_vector)
        requires
            nf == flags & 0x7b8f,
            added == nf & !(cf & 0x7b8f),
            (cf & 0x7b8f) & !nf == 0,
    ;
    assert(same_look(s9, target));
    if i9.len() == 0 {
        assert(a9 =~= Seq::<nat>::empty());
        assert(s9 == cur);
    } else {
        reveal(partial_sgr);
        assert(incremental_sgr(i9) =~= sgr_sequence(a9));
    }
}

/// The parameters of a reset and of the first four flags re-applied after
/// it.
spec fn reset_first(nf: u16) -> Seq<nat> {
    let a1 = acc_push(seq![0nat], has(nf, 0x2), seq![1nat]);
    let a2 = acc_push(a1, has(nf, 0x80), seq![2nat]);
    let a3 = acc_push(a2, has(nf, 0x4), seq![3nat]);
    acc_push(a3, has(nf, 0x8), seq![4nat])
}

/// The text of the first four flags re-applied after a reset.
spec fn reset_first_text(nf: u16) -> Seq<u8> {
    flag_param(nf, flag_bold(), seq![0x31u8]) + flag_param(nf, flag_dim(), seq![0x32u8]) + flag_param(
        nf,
        flag_italic(),
        seq![0x33u8],
    ) + flag_param(nf, flag_underline(), seq![0x34u8])
}

/// The parameters of a reset and the flags re-applied after it.
spec fn reset_units(nf: u16) -> Seq<nat> {
    let a5 = acc_push(reset_first(nf), has(nf, 0x1), seq![7nat]);
    let a6 = acc_push(a5, has(nf, 0x100), seq![8nat]);
    let a7 = acc_push(a6, has(nf, 0x200), seq![9nat]);
    acc_push(a7, has(nf, 0x800), seq![21nat])
}

#[verifier::rlimit(40)]
proof fn lemma_reset_first(nf: u16)
    ensures
        seq![0x30u8] + reset_first_text(nf) == params_text(reset_first(nf)),
        reset_first(nf).len() > 0,
        reset_first(nf)[0] == 0,
        whole(reset_first(nf)),
        sgr_effect(initial_sgr_state(), reset_first(nf).skip(1)) == with_added(initial_sgr_state(), nf, 0x8e),
{
    let init = initial_sgr_state();
    let a0 = seq![0nat];
    lemma_one_param(init, 0);
    lemma_small_decimals();
    let t0 = seq![0x30u8];
    assert(params_text(a0) == t0);
    assert(a0.skip(1) =~= Seq::<nat>::empty());
    assert(sgr_effect(init, a0.skip(1)) == init);
    assert((0u16 | (nf & 0)) == 0) by (bit_vector);
    assert(with_added(init, nf, 0) == init);
    assert((0u16 | 0x2u16) == 0x2u16) by (bit_vector);
    lemma_flag_param(nf, t0, a0, 0, 0x2, 1);
    let a1 = acc_push(a0, has(nf, 0x2), seq![1nat]);
    let t1 = t0 + flag_param(nf, 0x2, decimal(1));
    lemma_flag_param(nf, t1, a1, 0x2, 0x80, 2);
    let a2 = acc_push(a1, has(nf, 0x80), seq![2nat]);
    let t2 = t1 + flag_param(nf, 0x80, decimal(2));
    assert((0x2u16 | 0x80u16) == 0x82u16) by (bit_vector);
    lemma_flag_param(nf, t2, a2, 0x82, 0x4, 3);
    let a3 = acc_push(a2, has(nf, 0x4), seq![3nat]);
    let t3 = t2 + flag_param(nf, 0x4, decimal(3));
    assert((0x82u16 | 0x4u16) == 0x86u16) by (bit_vector);
    lemma_flag_param(nf, t3, a3, 0x86, 0x8, 4);
    let t4 = t3 + flag_param(nf, 0x8, decimal(4));
    assert((0x86u16 | 0x8u16) == 0x8eu16) by (bit_vector);
    let f1 = flag_param(nf, 0x2, decimal(1));
    let f2 = flag_param(nf, 0x80, decimal(2));
    let f3 = flag_param(nf, 0x4, decimal(3));
    let f4 = flag_param(nf, 0x8, decimal(4));
    assert(reset_first_text(nf) == f1 + f2 + f3 + f4);
    lemma_concat_assoc4(t0, f1, f2, f3, f4);
}

proof fn lemma_concat_assoc4(p: Seq<u8>, a: Seq<u8>, b: Seq<u8>, c: Seq<u8>, d: Seq<u8>)
    ensures
        p + (a + b + c + d) == p + a + b + c + d,
{
    assert(p + (a + b + c + d) =~= p + a + b + c + d);
}

#[verifier::rlimit(40)]
proof fn lemma_reset_units(nf: u16)
    ensures
        seq![0x30u8] + reset_flag_params(nf) == params_text(reset_units(nf)),
        reset_units(nf).len() > 0,
        reset_units(nf)[0] == 0,
        whole(reset_units(nf)),
        sgr_effect(initial_sgr_state(), reset_units(nf).skip(1)) == with_added(initial_sgr_state(), nf, 0xb8f),
{
    lemma_reset_first(nf);
    lemma_small_decimals();
    let a4 = reset_first(nf);
    let t4 = seq![0x30u8] + reset_first_text(nf);
    lemma_flag_param(nf, t4, a4, 0x8e, 0x1, 7);
    let a5 = acc_push(a4, has(nf, 0x1), seq![7nat]);
    let t5 = t4 + flag_param(nf, 0x1, decimal(7));
    assert((0x8eu16 | 0x1u16) == 0x8fu16) by (bit_vector);
    lemma_flag_param(nf, t5, a5, 0x8f, 0x100, 8);
    let a6 = acc_push(a5, has(nf, 0x100), seq![8nat]);
    let t6 = t5 + flag_param(nf, 0x100, decimal(8));
    assert((0x8fu16 | 0x100u16) == 0x18fu16) by (bit_vector);
    lemma_flag_param(nf, t6, a6, 0x18f, 0x200, 9);
    let a7 = acc_push(a6, has(nf, 0x200), seq![9nat]);
    let t7 = t6 + flag_param(nf, 0x200, decimal(9));
    assert((0x18fu16 | 0x200u16) == 0x38fu16) by (bit_vector);
    lemma_flag_param(nf, t7, a7, 0x38f, 0x800, 21);
    let t8 = t7 + flag_param(nf, 0x800, decimal(21));
    assert((0x38fu16 | 0x800u16) == 0xb8fu16) by (bit_vector);
    let x = reset_first_text(nf);
    let f5 = flag_param(nf, 0x1, decimal(7));
    let f6 = flag_param(nf, 0x100, decimal(8));
    let f7 = flag_param(nf, 0x200, decimal(9));
    let f8 = flag_param(nf, 0x800, decimal(21));
    assert(reset_flag_params(nf) == x + f5 + f6 + f7 + f8);
    lemma_concat_assoc5(seq![0x30u8], x, f5, f6, f7, f8);
}

proof fn lemma_concat_assoc5(p: Seq<u8>, x: Seq<u8>, a: Seq<u8>, b: Seq<u8>, c: Seq<u8>, d: Seq<u8>)
    ensures
        p + (x + a + b + c + d) == p + x + a + b + c + d,
{
    assert(p + (x + a + b + c + d) =~= p + x + a + b + c + d);
}

proof fn lemma_reset_frame(r: Seq<u8>, f: Seq<u8>, b: Seq<u8>)
    ensures
        seq![0x1bu8, 0x5bu8, 0x30u8] + r + f + b + seq![0x6du8] == seq![0x1bu8, 0x5bu8] + (seq![0x30u8]
            + r + f + b) + seq![0x6du8],
{
    assert(seq![0x1bu8, 0x5bu8, 0x30u8] + r + f + b + seq![0x6du8] =~= seq![0x1bu8, 0x5bu8] + (seq![
        0x30u8,
    ] + r + f + b) + seq![0x6du8]);
}

/// The reset case of `sgr_bytes`: a reset, then every attribute of the cell.
#[verifier::rlimit(40)]
proof fn lemma_reset_takes_effect(fg: TermColor, bg: TermColor, flags: u16, cur: SgrState)
    requires
        sgr_fg_ok(fg),
        sgr_bg_ok(bg),
    ensures
        exists|ns: Seq<nat>|
            reset_sgr(fg, bg, flags & sgr_mask()) == sgr_sequence(ns) && same_look(
                sgr_effect(cur, ns),
                SgrState { fg, bg, flags },
            ),
{
    let nf = flags & sgr_mask();
    assert(sgr_mask() == 0x7b8f);
    let init = initial_sgr_state();
    lemma_reset_units(nf);
    let a8 = reset_units(nf);
    let t8 = seq![0x30u8] + reset_flag_params(nf);
    let s8 = with_added(init, nf, 0xb8f);
    lemma_color_param(s8, t8, a8, fg, true);
    let dfg = TermColor::Named(named_foreground());
    let a9 = acc_push(a8, fg != dfg, color_units(fg, true));
    let t9 = t8 + fg_after_reset(fg);
    let s9 = if fg != dfg {
        with_color(s8, true, fg)
    } else {
        s8
    };
    lemma_color_param(s9, t9, a9, bg, false);
    let dbg = TermColor::Named(named_background());
    let a10 = acc_push(a9, bg != dbg, color_units(bg, false));
    let t10 = t9 + bg_after_reset(bg);
    let s10 = if bg != dbg {
        with_color(s9, false, bg)
    } else {
        s9
    };
    lemma_whole_tail(a10);
    assert(sgr_effect(cur, a10) == s10);
    lemma_reset_frame(reset_flag_params(nf), fg_after_reset(fg), bg_after_reset(bg));
    assert(reset_sgr(fg, bg, nf) == sgr_sequence(a10));
    assert(((0u16 | (nf & 0xb8f)) & 0x38f) == flags & 0x38f) by (bit_vector)
        requires
            nf == flags & 0x7b8f,
    ;
    assert(same_look(s10, SgrState { fg, bg, flags }));
}

/// The SGR sequence that the redraw writes before a cell gives the
/// terminal that cell's look: applied to the attributes `cur` in effect,
/// it leaves the cell's foreground, background and shown flags (bold, dim,
/// italic, underline, inverse, hidden, strikeout), whatever `cur` held; in
/// particular a flag that `cur` shows and the cell lacks is turned off.
/// When it is empty, `cur` already looks like the cell.
pub proof fn lemma_sgr_takes_effect(fg: TermColor, bg: TermColor, flags: u16, cur: SgrState)
    requires
        sgr_fg_ok(fg),
        sgr_bg_ok(bg),
    ensures
        ({
            let b = sgr_bytes(fg, bg, flags, cur);
            let target = SgrState { fg, bg, flags };
            (b.len() == 0 && same_look(cur, target)) || exists|ns: Seq<nat>|
                b == sgr_sequence(ns) && same_look(sgr_effect(cur, ns), target)
        }),
{
    let nf = flags & sgr_mask();
    let of = cur.flags & sgr_mask();
    if of & !nf != 0 {
        lemma_reset_takes_effect(fg, bg, flags, cur);
    } else {
        lemma_incremental_takes_effect(fg, bg, flags, cur);
    }
}



proof fn lemma_param_keeps_look(a: SgrState, b: SgrState, n: nat)
    requires
        same_look(a, b),
    ensures
        same_look(sgr_param_effect(a, n), sgr_param_effect(b, n)),
{
    let (af, bf) = (a.flags, b.flags);
    assert(forall|bit: u16| (af & 0x38f == bf & 0x38f) ==> ((af | bit) & 0x38f == (bf | bit) & 0x38f))
        by (bit_vector);
}

proof fn lemma_effect_keeps_look(a: SgrState, b: SgrState, ns: Seq<nat>)
    requires
        same_look(a, b),
    ensures
        same_look(sgr_effect(a, ns), sgr_effect(b, ns)),
    decreases ns.len(),
{
    if ns.len() > 0 {
        if starts_indexed(ns) {
            let c = TermColor::Indexed(ns[2] as u8);
            lemma_effect_keeps_look(with_color(a, ns[0] == 38, c), with_color(b, ns[0] == 38, c), ns.skip(3));
        } else if starts_rgb(ns) {
            let c = TermColor::Spec(ns[2] as u8, ns[3] as u8, ns[4] as u8);
            lemma_effect_keeps_look(with_color(a, ns[0] == 38, c), with_color(b, ns[0] == 38, c), ns.skip(5));
        } else {
            lemma_param_keeps_look(a, b, ns[0]);
            lemma_effect_keeps_look(sgr_param_effect(a, ns[0]), sgr_param_effect(b, ns[0]), ns.skip(1));
        }
    }
}

/// The attributes a cell asks for.
pub open spec fn cell_look(c: CellSnapshot) -> SgrState {
    SgrState { fg: c.fg, bg: c.bg, flags: c.flags }
}

/// Each cell of a redraw is drawn with its own look. When the terminal's
/// attributes (`actual`) look like those the redraw has tracked (`st`),
/// the bytes for a cell are its text, or an SGR sequence and then its text;
/// once that sequence is applied, the terminal looks like the cell, and
/// like the attributes the redraw tracks from there on.
pub proof fn lemma_cell_drawn_with_its_look(c: CellSnapshot, st: SgrState, actual: SgrState)
    requires
        sgr_fg_ok(c.fg),
        sgr_bg_ok(c.bg),
        c.flags & flag_wide_char_spacer() == 0,
        same_look(actual, st),
    ensures
        ({
            let (bytes, st2) = render_cell(c, st);
            let text = char_bytes(c.ch) + encode_utf8(c.zerowidth@);
            ||| bytes == text && same_look(actual, cell_look(c)) && same_look(actual, st2)
            ||| exists|ns: Seq<nat>|
                bytes == sgr_sequence(ns) + text && same_look(sgr_effect(actual, ns), cell_look(c))
                    && same_look(sgr_effect(actual, ns), st2)
        }),
{
    let (bytes, st2) = render_cell(c, st);
    let text = char_bytes(c.ch) + encode_utf8(c.zerowidth@);
    let cf = c.flags;
    assert(sgr_mask() == 0x7b8f);
    assert((cf & 0x7b8f) & 0x38f == cf & 0x38f) by (bit_vector);
    let needed = c.fg != st.fg || c.bg != st.bg || c.flags & sgr_mask() != st.flags & sgr_mask();
    if needed {
        let sgr = sgr_bytes(c.fg, c.bg, c.flags, st);
        assert(bytes == sgr + text);
        lemma_sgr_takes_effect(c.fg, c.bg, c.flags, st);
        if sgr.len() == 0 && same_look(st, cell_look(c)) {
            assert(bytes =~= text);
        } else {
            let ns = choose|ns: Seq<nat>|
                sgr == sgr_sequence(ns) && same_look(sgr_effect(st, ns), cell_look(c));
            lemma_effect_keeps_look(actual, st, ns);
            assert(bytes == sgr_sequence(ns) + text);
        }
    } else {
        let sf = st.flags;
        assert((cf & 0x7b8f == sf & 0x7b8f) ==> (cf & 0x38f == sf & 0x38f)) by (bit_vector);
        assert(bytes =~= text);
    }
}

} // verus!
