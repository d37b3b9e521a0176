//! How ANSI output relates to plain output: with its escape sequences taken
//! out and its line endings made plain, the ANSI rendering of a canvas is
//! its plain rendering.
use vstd::prelude::*;
use crate::canvas::{
    self, background_reset, cell_text, erase_line, render, render_cells, render_row, render_rows, render_step,
    reset_all, row_newline, row_tail, sgr, spaces, step_attributes, step_background, step_erase,
    style_codes, CellView, OutputEnv, RenderState,
};
use crate::color::{self, Color, SgrColor};

verus! {

/// A parameter byte of a control sequence (`0x30..=0x3F`).
pub open spec fn is_param_byte(c: char) -> bool {
    '0' <= c && c <= '?'
}

/// A final byte of a control sequence (`0x40..=0x7E`).
pub open spec fn is_final_byte(c: char) -> bool {
    '@' <= c && c <= '~'
}

/// The number of parameter bytes `s` starts with.
pub open spec fn params_len(s: Seq<char>) -> nat
    decreases s.len(),
{
    if s.len() > 0 && is_param_byte(s[0]) {
        1 + params_len(s.drop_first())
    } else {
        0
    }
}

/// `s` with every control sequence (`ESC [`, parameter bytes, one final
/// byte) taken out and every `"\r\n"` made `"\n"`.
pub open spec fn without_escapes(s: Seq<char>) -> Seq<char>
    decreases s.len(),
{
    if s.len() == 0 {
        Seq::empty()
    } else if s.len() >= 2 && s[0] == '\x1b' && s[1] == '[' && params_len(s.skip(2)) + 2 < s.len() && is_final_byte(
        s[params_len(s.skip(2)) + 2int],
    ) {
        without_escapes(s.skip(params_len(s.skip(2)) + 3int))
    } else if s.len() >= 2 && s[0] == '\r' && s[1] == '\n' {
        seq!['\n'] + without_escapes(s.skip(2))
    } else {
        seq![s[0]] + without_escapes(s.skip(1))
    }
}

/// Text holding neither escape characters nor carriage returns.
pub open spec fn clean(v: Seq<char>) -> bool {
    forall|k: int| 0 <= k < v.len() ==> #[trigger] v[k] != '\x1b' && v[k] != '\r'
}

/// Taking the escapes out of `a` followed by anything gives `p` followed
/// by what taking them out of the rest gives.
pub open spec fn strips_to(a: Seq<char>, p: Seq<char>) -> bool {
    forall|t: Seq<char>| #[trigger] without_escapes(a + t) == p + without_escapes(t)
}

proof fn lemma_strips_concat(a1: Seq<char>, p1: Seq<char>, a2: Seq<char>, p2: Seq<char>)
    requires
        strips_to(a1, p1),
        strips_to(a2, p2),
    ensures
        strips_to(a1 + a2, p1 + p2),
{
    assert forall|t: Seq<char>| #[trigger] without_escapes((a1 + a2) + t) == (p1 + p2) + without_escapes(t) by {
        assert((a1 + a2) + t =~= a1 + (a2 + t));
        assert(without_escapes(a1 + (a2 + t)) == p1 + without_escapes(a2 + t));
        assert(without_escapes(a2 + t) == p2 + without_escapes(t));
        assert(p1 + (p2 + without_escapes(t)) =~= (p1 + p2) + without_escapes(t));
    }
}

proof fn lemma_strips_empty()
    ensures
        strips_to(Seq::empty(), Seq::empty()),
{
    assert forall|t: Seq<char>| #[trigger] without_escapes(Seq::<char>::empty() + t) == Seq::<char>::empty() + without_escapes(t) by {
        assert(Seq::<char>::empty() + t =~= t);
        assert(Seq::<char>::empty() + without_escapes(t) =~= without_escapes(t));
    }
}

proof fn lemma_strips_text(x: Seq<char>)
    requires
        clean(x),
    ensures
        strips_to(x, x),
    decreases x.len(),
{
    if x.len() == 0 {
        lemma_strips_empty();
        assert(x =~= Seq::<char>::empty());
    } else {
        let r = x.drop_first();
        assert(clean(r)) by {
            assert forall|k: int| 0 <= k < r.len() implies #[trigger] r[k] != '\x1b' && r[k] != '\r' by {
                assert(r[k] == x[k + 1]);
            }
        }
        lemma_strips_text(r);
        assert forall|t: Seq<char>| #[trigger] without_escapes(x + t) == x + without_escapes(t) by {
            let s = x + t;
            assert(s[0] == x[0]);
            assert(s.skip(1) =~= r + t);
            assert(without_escapes(r + t) == r + without_escapes(t));
            assert(seq![x[0]] + (r + without_escapes(t)) =~= x + without_escapes(t));
        }
    }
}

proof fn lemma_strips_crlf()
    ensures
        strips_to(seq!['\r', '\n'], seq!['\n']),
{
    let a = seq!['\r', '\n'];
    let n = seq!['\n'];
    assert forall|t: Seq<char>| #[trigger] without_escapes(a + t) == n + without_escapes(t) by {
        let s = a + t;
        assert(s[0] == '\r' && s[1] == '\n');
        assert(s.skip(2) =~= t);
    }
}

/// All the characters are parameter bytes.
pub open spec fn all_params(p: Seq<char>) -> bool {
    forall|k: int| 0 <= k < p.len() ==> is_param_byte(#[trigger] p[k])
}

proof fn lemma_params_len(p: Seq<char>, rest: Seq<char>)
    requires
        all_params(p),
        rest.len() > 0,
        !is_param_byte(rest[0]),
    ensures
        params_len(p + rest) == p.len(),
    decreases p.len(),
{
    if p.len() == 0 {
        assert(p + rest =~= rest);
    } else {
        assert((p + rest)[0] == p[0]);
        assert((p + rest).drop_first() =~= p.drop_first() + rest);
        assert(all_params(p.drop_first())) by {
            assert forall|k: int| 0 <= k < p.drop_first().len() implies is_param_byte(#[trigger] p.drop_first()[k]) by {
                assert(p.drop_first()[k] == p[k + 1]);
            }
        }
        lemma_params_len(p.drop_first(), rest);
    }
}

/// A control sequence with parameter bytes `p` and final byte `f` is taken
/// out entirely.
proof fn lemma_strips_csi(p: Seq<char>, f: char)
    requires
        all_params(p),
        is_final_byte(f),
    ensures
        strips_to(seq!['\x1b', '['] + p + seq![f], Seq::empty()),
{
    let a = seq!['\x1b', '['] + p + seq![f];
    assert forall|t: Seq<char>| #[trigger] without_escapes(a + t) == Seq::<char>::empty() + without_escapes(t) by {
        let s = a + t;
        assert(s[0] == '\x1b' && s[1] == '[');
        assert(s.skip(2) =~= p + (seq![f] + t));
        lemma_params_len(p, seq![f] + t);
        assert(s[p.len() + 2int] == f);
        assert(s.skip(p.len() + 3int) =~= t);
        assert(Seq::<char>::empty() + without_escapes(t) =~= without_escapes(t));
    }
}

proof fn lemma_all_params_concat(a: Seq<char>, b: Seq<char>)
    requires
        all_params(a),
        all_params(b),
    ensures
        all_params(a + b),
{
    assert forall|k: int| 0 <= k < (a + b).len() implies is_param_byte(#[trigger] (a + b)[k]) by {
        if k < a.len() {
            assert((a + b)[k] == a[k]);
        } else {
            assert((a + b)[k] == b[k - a.len()]);
        }
    }
}

proof fn lemma_decimal_params(n: nat)
    ensures
        all_params(color::decimal(n)),
    decreases n,
{
    if n >= 10 {
        lemma_decimal_params(n / 10);
        let d = color::decimal(n / 10);
        assert(all_params(d.push(color::digit_char(n % 10)))) by {
            assert forall|k: int| 0 <= k < d.len() + 1 implies is_param_byte(#[trigger] d.push(color::digit_char(n % 10))[k]) by {
                if k < d.len() {
                    assert(d.push(color::digit_char(n % 10))[k] == d[k]);
                }
            }
        }
    }
}

proof fn lemma_color_params(c: Color)
    ensures
        all_params(color::color_params(c)),
{
    reveal_strlit("5;0");
    reveal_strlit("5;8");
    reveal_strlit("5;9");
    reveal_strlit("5;1");
    reveal_strlit("5;10");
    reveal_strlit("5;2");
    reveal_strlit("5;11");
    reveal_strlit("5;3");
    reveal_strlit("5;12");
    reveal_strlit("5;4");
    reveal_strlit("5;13");
    reveal_strlit("5;5");
    reveal_strlit("5;14");
    reveal_strlit("5;6");
    reveal_strlit("5;15");
    reveal_strlit("5;7");
    reveal_strlit("2;");
    reveal_strlit(";");
    reveal_strlit("5;");
    match c {
        Color::Rgb { r, g, b } => {
            lemma_decimal_params(r as nat);
            lemma_decimal_params(g as nat);
            lemma_decimal_params(b as nat);
            lemma_all_params_concat("2;"@, color::decimal(r as nat));
            lemma_all_params_concat("2;"@ + color::decimal(r as nat), ";"@);
            lemma_all_params_concat("2;"@ + color::decimal(r as nat) + ";"@, color::decimal(g as nat));
            lemma_all_params_concat("2;"@ + color::decimal(r as nat) + ";"@ + color::decimal(g as nat), ";"@);
            lemma_all_params_concat(
                "2;"@ + color::decimal(r as nat) + ";"@ + color::decimal(g as nat) + ";"@,
                color::decimal(b as nat),
            );
        },
        Color::AnsiValue(v) => {
            lemma_decimal_params(v as nat);
            lemma_all_params_concat("5;"@, color::decimal(v as nat));
        },
        _ => {},
    }
}

proof fn lemma_sgr_params(s: SgrColor, disabled: bool)
    ensures
        all_params(color::sgr_params(s, disabled)),
{
    reveal_strlit("39");
    reveal_strlit("49");
    reveal_strlit("38;");
    reveal_strlit("48;");
    match s {
        SgrColor::Foreground(c) => {
            lemma_color_params(c);
            lemma_all_params_concat("38;"@, color::color_params(c));
        },
        SgrColor::Background(c) => {
            lemma_color_params(c);
            lemma_all_params_concat("48;"@, color::color_params(c));
        },
    }
}

/// A select-graphic-rendition sequence is taken out entirely.
proof fn lemma_strips_sgr(params: Seq<char>)
    requires
        all_params(params),
    ensures
        strips_to(sgr(params), Seq::empty()),
{
    lemma_strips_csi(params, 'm');
}

proof fn lemma_strips_codes()
    ensures
        strips_to(reset_all(), Seq::empty()),
        strips_to(erase_line(), Seq::empty()),
        forall|s: SgrColor, d: bool| strips_to(#[trigger] sgr(color::sgr_params(s, d)), Seq::empty()),
        forall|n: nat| strips_to(#[trigger] sgr(color::decimal(n)), Seq::empty()),
{
    assert(all_params(seq!['0']));
    lemma_strips_sgr(seq!['0']);
    assert(all_params(Seq::<char>::empty()));
    lemma_strips_csi(Seq::empty(), 'K');
    assert(seq!['\x1b', '['] + Seq::<char>::empty() + seq!['K'] =~= erase_line());
    assert forall|s: SgrColor, d: bool| strips_to(#[trigger] sgr(color::sgr_params(s, d)), Seq::empty()) by {
        lemma_sgr_params(s, d);
        lemma_strips_sgr(color::sgr_params(s, d));
    }
    assert forall|n: nat| strips_to(#[trigger] sgr(color::decimal(n)), Seq::empty()) by {
        lemma_decimal_params(n);
        lemma_strips_sgr(color::decimal(n));
    }
}

/// The text of a cell holds neither escape characters nor carriage
/// returns.
pub open spec fn cell_clean(cell: CellView) -> bool {
    cell.character matches Some((v, _)) ==> clean(v)
}

/// Every cell of every row is [`cell_clean`].
pub open spec fn rows_clean(rows: Seq<Seq<CellView>>) -> bool {
    forall|i: int, j: int| 0 <= i < rows.len() && 0 <= j < rows[i].len() ==> cell_clean(#[trigger] rows[i][j])
}

proof fn lemma_strips_opt(cond: bool, a: Seq<char>)
    requires
        strips_to(a, Seq::empty()),
    ensures
        strips_to(if cond { a } else { Seq::empty() }, Seq::empty()),
{
    lemma_strips_empty();
}

proof fn lemma_strips_concat_empty(a1: Seq<char>, a2: Seq<char>)
    requires
        strips_to(a1, Seq::empty()),
        strips_to(a2, Seq::empty()),
    ensures
        strips_to(a1 + a2, Seq::empty()),
{
    lemma_strips_concat(a1, Seq::empty(), a2, Seq::empty());
    assert(Seq::<char>::empty() + Seq::<char>::empty() =~= Seq::<char>::empty());
}

proof fn lemma_strips_style_codes(st: crate::style::CanvasTextStyle, cur: crate::style::CanvasTextStyle, nc: bool)
    ensures
        strips_to(style_codes(st, cur, nc), Seq::empty()),
{
    lemma_strips_codes();
    lemma_strips_empty();
    let a: Seq<char> = if st.color != cur.color {
        sgr(color::sgr_params(SgrColor::Foreground(match st.color {
            Some(c) => c,
            None => Color::Reset,
        }), nc))
    } else {
        Seq::empty()
    };
    let b: Seq<char> = if st.weight != cur.weight {
        match st.weight {
            crate::style::Weight::Bold => sgr(color::decimal(color::SGR_BOLD as nat)),
            crate::style::Weight::Light => sgr(color::decimal(color::SGR_DIM as nat)),
            crate::style::Weight::Normal => Seq::empty(),
        }
    } else {
        Seq::empty()
    };
    let c: Seq<char> = if st.underline && !cur.underline {
        sgr(color::decimal(color::SGR_UNDERLINED as nat))
    } else {
        Seq::empty()
    };
    let d: Seq<char> = if st.italic && !cur.italic {
        sgr(color::decimal(color::SGR_ITALIC as nat))
    } else {
        Seq::empty()
    };
    assert(strips_to(a, Seq::empty()));
    assert(strips_to(b, Seq::empty()));
    assert(strips_to(c, Seq::empty()));
    assert(strips_to(d, Seq::empty()));
    lemma_strips_concat_empty(a, b);
    lemma_strips_concat_empty(a + b, c);
    lemma_strips_concat_empty(a + b + c, d);
    assert(style_codes(st, cur, nc) == a + b + c + d);
}

proof fn lemma_strips_cell_text(cell: CellView, env: OutputEnv)
    requires
        cell_clean(cell),
    ensures
        strips_to(cell_text(cell, env), cell_text(cell, env)),
{
    match cell.character {
        Some((v, _)) => {
            let sp = spaces(canvas::cluster_padding(v, env));
            assert(clean(v + sp)) by {
                assert forall|k: int| 0 <= k < (v + sp).len() implies #[trigger] (v + sp)[k] != '\x1b' && (v + sp)[k] != '\r' by {
                    if k < v.len() {
                        assert((v + sp)[k] == v[k]);
                    } else {
                        assert((v + sp)[k] == sp[k - v.len()]);
                    }
                }
            }
            lemma_strips_text(v + sp);
        },
        None => {
            assert(clean(seq![' ']));
            lemma_strips_text(seq![' ']);
        },
    }
}

/// One cell: the ANSI output strips to the plain output, whatever the two
/// states, and the next column is the same.
proof fn lemma_step_strips(cell: CellView, col: int, width: nat, env: OutputEnv, s1: RenderState, s2: RenderState)
    requires
        cell_clean(cell),
    ensures
        strips_to(render_step(cell, col, width, true, env, s1).0, render_step(cell, col, width, false, env, s2).0),
        render_step(cell, col, width, true, env, s1).1 == render_step(cell, col, width, false, env, s2).1,
{
    lemma_strips_codes();
    lemma_strips_empty();
    let a = step_attributes(cell, true, env, s1);
    let col2 = col + canvas::cell_advance(cell);
    let e = step_erase(col2, width, true, env, a.1);
    let b = step_background(cell, true, env, e.1);
    let reset = canvas::needs_reset(cell, s1.style);
    let out1: Seq<char> = if reset { reset_all() } else { Seq::empty() };
    let st1 = if reset {
        RenderState { background: None, style: crate::style::plain_style(), ..s1 }
    } else {
        s1
    };
    assert(strips_to(a.0, Seq::empty())) by {
        match cell.character {
            Some((_, cs)) => {
                lemma_strips_style_codes(cs, st1.style, env.no_color);
                lemma_strips_concat_empty(out1, style_codes(cs, st1.style, env.no_color));
            },
            None => {},
        }
    }
    assert(strips_to(e.0, Seq::empty())) by {
        lemma_strips_opt(a.1.background is Some, background_reset(env.no_color));
        lemma_strips_concat_empty(
            if a.1.background is Some { background_reset(env.no_color) } else { Seq::empty() },
            erase_line(),
        );
    }
    lemma_strips_concat_empty(a.0, e.0);
    lemma_strips_concat_empty(a.0 + e.0, b.0);
    lemma_strips_cell_text(cell, env);
    lemma_strips_concat(a.0 + e.0 + b.0, Seq::empty(), cell_text(cell, env), cell_text(cell, env));
    let p = render_step(cell, col, width, false, env, s2).0;
    assert(p =~= cell_text(cell, env));
    assert(Seq::<char>::empty() + cell_text(cell, env) =~= cell_text(cell, env));
}

/// The cells of a row from column `col` on.
proof fn lemma_cells_strip(row: Seq<CellView>, col: int, width: nat, env: OutputEnv, s1: RenderState, s2: RenderState)
    requires
        forall|j: int| 0 <= j < row.len() ==> cell_clean(#[trigger] row[j]),
    ensures
        strips_to(render_cells(row, col, width, true, env, s1).0, render_cells(row, col, width, false, env, s2).0),
    decreases canvas::imax(row.len() - col, 0),
{
    if col < 0 || col >= row.len() {
        lemma_strips_empty();
    } else {
        lemma_step_strips(row[col], col, width, env, s1, s2);
        let st1 = render_step(row[col], col, width, true, env, s1);
        let st2 = render_step(row[col], col, width, false, env, s2);
        canvas::lemma_cell_advance_pos(row[col]);
        lemma_cells_strip(row, st1.1, width, env, st1.2, st2.2);
        lemma_strips_concat(
            st1.0,
            st2.0,
            render_cells(row, st1.1, width, true, env, st1.2).0,
            render_cells(row, st2.1, width, false, env, st2.2).0,
        );
    }
}

proof fn lemma_trimmed_len_le(row: Seq<CellView>)
    ensures
        canvas::trimmed_len(row) <= row.len(),
    decreases row.len(),
{
    if row.len() > 0 && canvas::cell_is_empty(row.last()) {
        lemma_trimmed_len_le(row.drop_last());
    }
}

proof fn lemma_row_strips(
    row: Seq<CellView>,
    is_final: bool,
    width: nat,
    omit: bool,
    env: OutputEnv,
    s1: RenderState,
    s2: RenderState,
)
    requires
        forall|j: int| 0 <= j < row.len() ==> cell_clean(#[trigger] row[j]),
    ensures
        strips_to(render_row(row, is_final, width, true, omit, env, s1).0, render_row(row, is_final, width, false, omit, env, s2).0),
{
    lemma_strips_codes();
    lemma_strips_empty();
    let r = row.take(canvas::trimmed_len(row) as int);
    lemma_trimmed_len_le(row);
    assert forall|j: int| 0 <= j < r.len() implies cell_clean(#[trigger] r[j]) by {
        assert(r[j] == row[j]);
    }
    let c1 = render_cells(r, 0, width, true, env, RenderState { cleared: false, ..s1 });
    let c2 = render_cells(r, 0, width, false, env, RenderState { cleared: false, ..s2 });
    lemma_cells_strip(r, 0, width, env, RenderState { cleared: false, ..s1 }, RenderState { cleared: false, ..s2 });
    let t1 = row_tail(true, env, c1.1);
    assert(strips_to(t1.0, Seq::empty())) by {
        lemma_strips_opt(c1.1.background is Some, background_reset(env.no_color));
        lemma_strips_opt(!c1.1.cleared, erase_line());
        lemma_strips_concat_empty(
            if c1.1.background is Some { background_reset(env.no_color) } else { Seq::empty() },
            if !c1.1.cleared { erase_line() } else { Seq::empty() },
        );
    }
    let n1 = row_newline(is_final, true, omit);
    let n2 = row_newline(is_final, false, omit);
    assert(strips_to(n1, n2)) by {
        if !omit || !is_final {
            lemma_strips_crlf();
            let pre: Seq<char> = if is_final { reset_all() } else { Seq::empty() };
            lemma_strips_opt(is_final, reset_all());
            lemma_strips_concat(pre, Seq::empty(), seq!['\r', '\n'], seq!['\n']);
            assert(Seq::<char>::empty() + seq!['\n'] =~= seq!['\n']);
        }
    }
    lemma_strips_concat(c1.0, c2.0, t1.0, Seq::empty());
    lemma_strips_concat(c1.0 + t1.0, c2.0 + Seq::empty(), n1, n2);
    let t2 = row_tail(false, env, c2.1);
    assert(c2.0 + t2.0 + n2 =~= c2.0 + Seq::<char>::empty() + n2);
}

proof fn lemma_rows_strip(
    rows: Seq<Seq<CellView>>,
    y: int,
    width: nat,
    omit: bool,
    env: OutputEnv,
    s1: RenderState,
    s2: RenderState,
)
    requires
        rows_clean(rows),
    ensures
        strips_to(render_rows(rows, y, width, true, omit, env, s1), render_rows(rows, y, width, false, omit, env, s2)),
    decreases rows.len() - y,
{
    if y < 0 || y >= rows.len() {
        lemma_strips_empty();
    } else {
        assert forall|j: int| 0 <= j < rows[y].len() implies cell_clean(#[trigger] rows[y][j]) by {}
        let f = y == rows.len() - 1;
        let r1 = render_row(rows[y], f, width, true, omit, env, s1);
        let r2 = render_row(rows[y], f, width, false, omit, env, s2);
        lemma_row_strips(rows[y], f, width, omit, env, s1, s2);
        lemma_rows_strip(rows, y + 1, width, omit, env, r1.1, r2.1);
        lemma_strips_concat(
            r1.0,
            r2.0,
            render_rows(rows, y + 1, width, true, omit, env, r1.1),
            render_rows(rows, y + 1, width, false, omit, env, r2.1),
        );
    }
}

/// ANSI output is plain output with escape sequences added and line ends
/// made `"\r\n"`: where no cell holds an escape character or a carriage
/// return, taking the control sequences out of a canvas's ANSI rendering
/// and making its `"\r\n"` line ends `"\n"` gives its plain rendering, with
/// or without the final line end. With the contracts of
/// [`canvas::Canvas::write_ansi`] and [`canvas::Canvas::write`], this is
/// what their outputs are.
pub proof fn lemma_ansi_is_plain_with_escapes(rows: Seq<Seq<CellView>>, width: nat, omit_final_newline: bool, env: OutputEnv)
    requires
        rows_clean(rows),
    ensures
        without_escapes(render(rows, width, true, omit_final_newline, env)) == render(rows, width, false, omit_final_newline, env),
{
    lemma_strips_codes();
    lemma_strips_empty();
    let s0 = canvas::initial_render_state();
    let a = render_rows(rows, 0, width, true, omit_final_newline, env, s0);
    let p = render_rows(rows, 0, width, false, omit_final_newline, env, s0);
    lemma_rows_strip(rows, 0, width, omit_final_newline, env, s0, s0);
    let tail: Seq<char> = if omit_final_newline { reset_all() } else { Seq::empty() };
    lemma_strips_opt(omit_final_newline, reset_all());
    lemma_strips_concat(reset_all(), Seq::empty(), a, p);
    lemma_strips_concat(reset_all() + a, Seq::empty() + p, tail, Seq::empty());
    let whole = reset_all() + a + tail;
    assert(render(rows, width, true, omit_final_newline, env) == whole);
    assert(without_escapes(whole + Seq::empty()) == (Seq::<char>::empty() + p + Seq::empty()) + without_escapes(Seq::empty()));
    assert(whole + Seq::<char>::empty() =~= whole);
    assert(without_escapes(Seq::<char>::empty()) =~= Seq::<char>::empty());
    assert(Seq::<char>::empty() + p + Seq::<char>::empty() + Seq::<char>::empty() =~= p);
    assert(render(rows, width, false, omit_final_newline, env) =~= p);
}

} // verus!
