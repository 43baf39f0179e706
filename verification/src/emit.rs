//! The canonical IR emitter: a syntax tree to byte-stable JSON.
//!
//! The writer and every emitting step are mirrored by specification
//! functions, so the emitted text is pinned exactly: two semantically equal
//! programs yield byte-identical output.

use vstd::prelude::*;
use vstd::string::StrSliceExecFns;
use vstd::string::StringExecFns;

use crate::ast::AssignV;
use crate::ast::CallArg;
use crate::ast::CallArgV;
use crate::ast::Expr;
use crate::ast::ExprV;
use crate::ast::Item;
use crate::ast::ItemV;
use crate::ast::Program;
use crate::ast::Quantity;
use crate::ast::QuantityV;
use crate::ast::Assign;
use crate::ast::StimulusModel;
use crate::ast::args_match;
use crate::ast::assigns_match;
use crate::ast::call_arg_matches;
use crate::ast::expr_matches;
use crate::ast::item_matches;
use crate::ast::items_match;
use crate::ast::program_matches;
use crate::number::Decimal;
use crate::number::DecimalV;
use crate::number::canon_chars;
use crate::text::push_u64_chars;
use crate::text::repeat_char;
use crate::text::u64_chars;

verus! {

/// The state of the JSON writer: its output, its indent depth, and whether
/// the next write starts a line.
pub struct JwV {
    pub out: Seq<char>,
    pub indent: int,
    pub at_line_start: bool,
}

/// Writing a piece of text: indentation is inserted at the start of a line.
pub open spec fn jw_write(st: JwV, s: Seq<char>) -> JwV {
    if st.at_line_start {
        JwV {
            out: st.out + repeat_char(' ', (2 * st.indent) as nat),
            at_line_start: false,
            ..st
        }.append_out(s)
    } else {
        st.append_out(s)
    }
}

impl JwV {
    /// The same state with `s` appended to the output.
    pub open spec fn append_out(self, s: Seq<char>) -> JwV {
        JwV { out: self.out + s, ..self }
    }
}

pub open spec fn jw_nl(st: JwV) -> JwV {
    JwV { out: st.out + seq!['\n'], at_line_start: true, ..st }
}

pub open spec fn jw_comma(st: JwV) -> JwV {
    jw_write(st, ","@)
}

pub open spec fn jw_comma_nl(st: JwV) -> JwV {
    jw_nl(jw_comma(st))
}

pub open spec fn jw_inc(st: JwV) -> JwV {
    JwV { indent: if st.indent < usize::MAX { st.indent + 1 } else { st.indent }, ..st }
}

pub open spec fn jw_dec(st: JwV) -> JwV {
    JwV { indent: if st.indent > 0 { st.indent - 1 } else { 0 }, ..st }
}

pub open spec fn jw_obj_begin(st: JwV) -> JwV {
    jw_inc(jw_write(st, "{"@))
}

pub open spec fn jw_obj_end(st: JwV) -> JwV {
    jw_write(jw_nl(jw_dec(st)), "}"@)
}

pub open spec fn jw_array_begin(st: JwV) -> JwV {
    jw_inc(jw_write(st, "["@))
}

pub open spec fn jw_array_end(st: JwV) -> JwV {
    jw_write(jw_nl(jw_dec(st)), "]"@)
}

/// The escaped form of one character inside a JSON string.
pub open spec fn esc_char(c: char) -> Seq<char> {
    if c == '"' {
        seq!['\\', '"']
    } else if c == '\\' {
        seq!['\\', '\\']
    } else if c == '\n' {
        seq!['\\', 'n']
    } else if c == '\r' {
        seq!['\\', 'r']
    } else if c == '\t' {
        seq!['\\', 't']
    } else if (c as u32) < 0x20 || (0x7f <= (c as u32) && (c as u32) <= 0x9f) {
        seq!['\\', 'u', '0', '0', spec_hex_char(((c as u32) / 16) as nat), spec_hex_char(
            ((c as u32) % 16) as nat,
        )]
    } else {
        seq![c]
    }
}

/// The lowercase hexadecimal digit for `d`.
pub open spec fn spec_hex_char(d: nat) -> char {
    if d < 10 {
        crate::text::spec_digit_char(d)
    } else if d == 10 {
        'a'
    } else if d == 11 {
        'b'
    } else if d == 12 {
        'c'
    } else if d == 13 {
        'd'
    } else if d == 14 {
        'e'
    } else {
        'f'
    }
}

/// The escaped content of a JSON string.
pub open spec fn json_escape(s: Seq<char>) -> Seq<char>
    decreases s.len(),
{
    if s.len() == 0 {
        Seq::empty()
    } else {
        json_escape(s.drop_last()) + esc_char(s.last())
    }
}

/// Writing a quoted, escaped JSON string.
pub open spec fn jw_str(st: JwV, s: Seq<char>) -> JwV {
    jw_write(st, seq!['"'] + json_escape(s) + seq!['"'])
}

/// Writing a key: on a fresh line unless one was just started, quoted, and
/// followed by a colon.
pub open spec fn jw_key(st: JwV, k: Seq<char>) -> JwV {
    let st0 = if !st.at_line_start {
        jw_nl(st)
    } else {
        st
    };
    jw_write(jw_str(st0, k), ": "@)
}

pub open spec fn jw_kv_str(st: JwV, k: Seq<char>, v: Seq<char>) -> JwV {
    jw_str(jw_key(st, k), v)
}

pub open spec fn jw_kv_u64(st: JwV, k: Seq<char>, v: u64) -> JwV {
    jw_write(jw_key(st, k), u64_chars(v as nat))
}

/// Writing a number value: the canonical decimal rendering.
pub open spec fn jw_kv_num(st: JwV, k: Seq<char>, d: DecimalV) -> JwV {
    jw_write(jw_key(st, k), canon_chars(d))
}

/// Emitting a quantity object: its value, and its unit when it has one.
pub open spec fn spec_emit_quantity_value(st: JwV, d: DecimalV, unit: Option<Seq<char>>) -> JwV {
    let st1 = jw_kv_num(jw_obj_begin(st), "value"@, d);
    let st2 = match unit {
        Some(u) => jw_kv_str(jw_comma_nl(st1), "unit"@, u),
        None => st1,
    };
    jw_obj_end(st2)
}

pub open spec fn spec_emit_quantity(st: JwV, q: QuantityV) -> JwV {
    spec_emit_quantity_value(
        st,
        q.value,
        match q.unit {
            Some(u) => Some(u.name),
            None => None,
        },
    )
}

/// Emitting one expression.
pub open spec fn spec_emit_expr(st: JwV, ev: ExprV) -> JwV
    decreases ev, 1int,
{
    match ev {
        ExprV::Number(q) => spec_emit_quantity(st, q),
        ExprV::StrLit(s) => jw_str(st, s),
        ExprV::Ident(id) => jw_obj_end(jw_kv_str(jw_obj_begin(st), "ident"@, id.name)),
        ExprV::Call(c) => {
            let st1 = jw_key(jw_comma_nl(jw_kv_str(jw_obj_begin(st), "call"@, c.name.name)), "args"@);
            let st2 = spec_emit_args(jw_array_begin(st1), c.args, c.args.len() as int);
            let st3 = if c.args.len() > 0 {
                jw_nl(st2)
            } else {
                st2
            };
            jw_obj_end(jw_array_end(st3))
        },
    }
}

/// Emitting the first `j` arguments of a call.
pub open spec fn spec_emit_args(st: JwV, args: Seq<CallArgV>, j: int) -> JwV
    decreases args, j,
{
    if j <= 0 || j > args.len() {
        st
    } else {
        let stp = spec_emit_args(st, args, j - 1);
        let st0 = if j - 1 != 0 {
            jw_comma(stp)
        } else {
            stp
        };
        let st1 = jw_nl(st0);
        match args[j - 1] {
            CallArgV::Positional(e) => spec_emit_expr(st1, e),
            CallArgV::Named { name, value } => {
                let st2 = jw_key(jw_comma_nl(jw_kv_str(jw_obj_begin(st1), "name"@, name.name)), "value"@);
                jw_obj_end(spec_emit_expr(st2, value))
            },
        }
    }
}

/// Emitting the first `j` assignments of a body.
pub open spec fn spec_emit_assigns_upto(st: JwV, body: Seq<AssignV>, j: int) -> JwV
    decreases body, j,
{
    if j <= 0 || j > body.len() {
        st
    } else {
        let stp = spec_emit_assigns_upto(st, body, j - 1);
        let st0 = if j - 1 != 0 {
            jw_comma(stp)
        } else {
            stp
        };
        let st1 = jw_obj_begin(jw_nl(st0));
        let st2 = jw_key(jw_comma_nl(jw_kv_str(st1, "key"@, body[j - 1].key.name)), "value"@);
        jw_obj_end(spec_emit_expr(st2, body[j - 1].value))
    }
}

/// Emitting a whole assignment array.
pub open spec fn spec_emit_assigns(st: JwV, body: Seq<AssignV>) -> JwV
    decreases body, body.len() + 1,
{
    let st1 = spec_emit_assigns_upto(jw_array_begin(st), body, body.len() as int);
    let st2 = if body.len() > 0 {
        jw_nl(st1)
    } else {
        st1
    };
    jw_array_end(st2)
}

/// Emitting one item; `run` items carry the program's seed and, when no
/// step was written, the default step of one millisecond.
pub open spec fn spec_emit_item(st: JwV, it: ItemV, seed: u64) -> JwV
    decreases it, 2int,
{
    let st0 = jw_obj_begin(st);
    let st9 = match it {
        ItemV::Neuron { name, body } => {
            let st1 = jw_key(jw_comma_nl(jw_kv_str(jw_comma_nl(jw_kv_str(st0, "kind"@, "neuron"@)), "name"@, name.name)), "body"@);
            spec_emit_assigns(st1, body)
        },
        ItemV::Layer { name, size, neuron } => {
            let st1 = jw_kv_u64(jw_comma_nl(jw_kv_str(jw_comma_nl(jw_kv_str(st0, "kind"@, "layer"@)), "name"@, name.name)), "size"@, size);
            jw_kv_str(jw_comma_nl(st1), "neuron"@, neuron.name)
        },
        ItemV::Connect { src, dst, body } => {
            let st1 = jw_kv_str(jw_comma_nl(jw_kv_str(jw_comma_nl(jw_kv_str(st0, "kind"@, "connect"@)), "src"@, src.name)), "dst"@, dst.name);
            spec_emit_assigns(jw_key(jw_comma_nl(st1), "body"@), body)
        },
        ItemV::Stimulus { layer, rate } => {
            let st1 = jw_key(jw_comma_nl(jw_kv_str(jw_comma_nl(jw_kv_str(st0, "kind"@, "stimulus"@)), "layer"@, layer.name)), "model"@);
            let st2 = jw_key(jw_comma_nl(jw_kv_str(jw_obj_begin(st1), "type"@, "poisson"@)), "rate"@);
            jw_obj_end(spec_emit_quantity(st2, rate))
        },
        ItemV::Run { duration, step } => {
            let st1 = spec_emit_quantity(jw_key(jw_comma_nl(jw_kv_str(st0, "kind"@, "run"@)), "duration"@), duration);
            let st2 = jw_key(jw_comma_nl(st1), "step"@);
            let st3 = match step {
                Some(q) => spec_emit_quantity(st2, q),
                None => spec_emit_quantity_value(st2, default_step_dec(), Some("ms"@)),
            };
            jw_kv_u64(jw_comma_nl(st3), "seed"@, seed)
        },
        ItemV::Seed { .. } => st0,
    };
    jw_obj_end(st9)
}

/// The default step written when a run has none: one millisecond.
pub open spec fn default_step_dec() -> DecimalV {
    DecimalV { neg: false, int_digits: seq![1u8], frac_digits: Seq::empty() }
}

/// The value of the first `seed` statement, or zero.
pub open spec fn first_seed_v(vs: Seq<ItemV>, i: int) -> u64
    decreases vs.len() - i,
{
    if i < 0 || i >= vs.len() {
        0
    } else {
        match vs[i] {
            ItemV::Seed { value, .. } => value,
            _ => first_seed_v(vs, i + 1),
        }
    }
}

/// The value of the first `seed` statement, or zero.
pub open spec fn first_seed_exec(items: Seq<Item>, i: int) -> u64
    decreases items.len() - i,
{
    if i < 0 || i >= items.len() {
        0
    } else {
        match items[i] {
            Item::Seed(d) => d.value,
            _ => first_seed_exec(items, i + 1),
        }
    }
}

pub proof fn lemma_first_seed_match(items: Seq<Item>, vs: Seq<ItemV>, i: int)
    requires
        items_match(items, vs),
        0 <= i <= items.len(),
    ensures
        first_seed_exec(items, i) == first_seed_v(vs, i),
    decreases items.len() - i,
{
    if i < items.len() {
        assert(item_matches(items[i], vs[i]));
        lemma_first_seed_match(items, vs, i + 1);
    }
}

/// Emitting the first `j` items, `seed` statements passed over; the flag
/// says whether nothing has been written yet.
pub open spec fn spec_emit_items(st: JwV, vs: Seq<ItemV>, j: int, seed: u64) -> (JwV, bool)
    decreases vs, j,
{
    if j <= 0 || j > vs.len() {
        (st, true)
    } else {
        let (stp, first) = spec_emit_items(st, vs, j - 1, seed);
        match vs[j - 1] {
            ItemV::Seed { .. } => (stp, first),
            _ => {
                let st0 = if !first {
                    jw_comma(stp)
                } else {
                    stp
                };
                (spec_emit_item(jw_nl(st0), vs[j - 1], seed), false)
            },
        }
    }
}

/// The canonical JSON text of a program: a fixed shape, so two semantically
/// equal programs yield byte-identical output.
pub open spec fn spec_cvir(vs: Seq<ItemV>) -> Seq<char> {
    let st0 = JwV { out: Seq::empty(), indent: 0, at_line_start: true };
    let st1 = jw_key(jw_comma_nl(jw_kv_str(jw_obj_begin(st0), "cvir_version"@, "0.2"@)), "items"@);
    let st2 = jw_array_begin(st1);
    let seed = first_seed_v(vs, 0);
    let (st3, first) = spec_emit_items(st2, vs, vs.len() as int, seed);
    let st4 = if !first {
        jw_nl(st3)
    } else {
        st3
    };
    jw_nl(jw_obj_end(jw_nl(jw_array_end(st4)))).out
}

/// A matching view is unique: expressions.
pub proof fn lemma_expr_unique(e: Expr, v1: ExprV, v2: ExprV)
    requires
        expr_matches(e, v1),
        expr_matches(e, v2),
    ensures
        v1 == v2,
    decreases v1,
{
    match v1 {
        ExprV::Call(c1) => {
            match v2 {
                ExprV::Call(c2) => {
                    let es: Seq<CallArg> = (match e {
                        Expr::Call(ec) => ec.args@,
                        _ => Seq::empty(),
                    });
                    assert(es.len() == c1.args.len());
                    assert(es.len() == c2.args.len());
                    assert forall|i: int| 0 <= i < c1.args.len() implies c1.args[i]
                        == c2.args[i] by {
                        assert(call_arg_matches(es[i], c1.args[i]));
                        assert(call_arg_matches(es[i], c2.args[i]));
                        lemma_arg_unique(es[i], c1.args[i], c2.args[i]);
                    }
                    assert(c1.args =~= c2.args);
                },
                _ => {},
            }
        },
        _ => {},
    }
}

/// A matching view is unique: call arguments.
pub proof fn lemma_arg_unique(a: CallArg, v1: CallArgV, v2: CallArgV)
    requires
        call_arg_matches(a, v1),
        call_arg_matches(a, v2),
    ensures
        v1 == v2,
    decreases v1,
{
    match v1 {
        CallArgV::Positional(e1) => {
            match v2 {
                CallArgV::Positional(e2) => {
                    match a {
                        CallArg::Positional(ae) => {
                            lemma_expr_unique(ae, e1, e2);
                        },
                        _ => {},
                    }
                },
                _ => {},
            }
        },
        CallArgV::Named { name: n1, value: e1 } => {
            match v2 {
                CallArgV::Named { name: n2, value: e2 } => {
                    match a {
                        CallArg::Named { name: _, value: av } => {
                            lemma_expr_unique(av, e1, e2);
                        },
                        _ => {},
                    }
                },
                _ => {},
            }
        },
    }
}

/// A matching view is unique: assignment lists.
pub proof fn lemma_assigns_unique(es: Seq<Assign>, v1: Seq<AssignV>, v2: Seq<AssignV>)
    requires
        assigns_match(es, v1),
        assigns_match(es, v2),
    ensures
        v1 == v2,
{
    assert forall|i: int| 0 <= i < v1.len() implies v1[i] == v2[i] by {
        assert(crate::ast::assign_matches(es[i], v1[i]));
        assert(crate::ast::assign_matches(es[i], v2[i]));
        lemma_expr_unique(es[i].value, v1[i].value, v2[i].value);
    }
    assert(v1 =~= v2);
}

/// A matching view is unique: items.
pub proof fn lemma_item_unique(it: Item, v1: ItemV, v2: ItemV)
    requires
        item_matches(it, v1),
        item_matches(it, v2),
    ensures
        v1 == v2,
{
    match v1 {
        ItemV::Neuron { name: _, body: b1 } => {
            match v2 {
                ItemV::Neuron { name: _, body: b2 } => {
                    match it {
                        Item::Neuron(d) => {
                            lemma_assigns_unique(d.body@, b1, b2);
                        },
                        _ => {},
                    }
                },
                _ => {},
            }
        },
        ItemV::Connect { src: _, dst: _, body: b1 } => {
            match v2 {
                ItemV::Connect { src: _, dst: _, body: b2 } => {
                    match it {
                        Item::Connect(d) => {
                            lemma_assigns_unique(d.body@, b1, b2);
                        },
                        _ => {},
                    }
                },
                _ => {},
            }
        },
        _ => {},
    }
}

/// A matching view is unique: whole programs.
pub proof fn lemma_items_unique(items: Seq<Item>, v1: Seq<ItemV>, v2: Seq<ItemV>)
    requires
        items_match(items, v1),
        items_match(items, v2),
    ensures
        v1 == v2,
{
    assert forall|i: int| 0 <= i < v1.len() implies v1[i] == v2[i] by {
        assert(item_matches(items[i], v1[i]));
        assert(item_matches(items[i], v2[i]));
        lemma_item_unique(items[i], v1[i], v2[i]);
    }
    assert(v1 =~= v2);
}

/// The JSON writer: two-space indentation, inserted at the start of each
/// line.
pub struct JsonWriter {
    pub out: String,
    pub indent: usize,
    pub at_line_start: bool,
}

impl View for JsonWriter {
    type V = JwV;

    open spec fn view(&self) -> JwV {
        JwV { out: self.out@, indent: self.indent as int, at_line_start: self.at_line_start }
    }
}

/// Appends the lowercase hexadecimal digit for `d`.
fn push_hex(out: &mut String, d: u32)
    requires
        d < 16,
    ensures
        final(out)@ == old(out)@ + seq![spec_hex_char(d as nat)],
{
    if d < 10 {
        crate::text::push_digit(out, d as u64);
    } else {
        match d {
            10 => {
                proof {
                    reveal_strlit("a");
                }
                out.append("a");
            },
            11 => {
                proof {
                    reveal_strlit("b");
                }
                out.append("b");
            },
            12 => {
                proof {
                    reveal_strlit("c");
                }
                out.append("c");
            },
            13 => {
                proof {
                    reveal_strlit("d");
                }
                out.append("d");
            },
            14 => {
                proof {
                    reveal_strlit("e");
                }
                out.append("e");
            },
            _ => {
                proof {
                    reveal_strlit("f");
                }
                out.append("f");
            },
        }
    }
}

impl JsonWriter {
    pub fn new() -> (w: JsonWriter)
        ensures
            w@ == (JwV { out: Seq::<char>::empty(), indent: 0, at_line_start: true }),
    {
        let w = JsonWriter { out: String::new(), indent: 0, at_line_start: true };
        proof {
            assert(w@.out =~= Seq::<char>::empty());
        }
        w
    }

    pub fn finish(self) -> (r: String)
        ensures
            r@ == self@.out,
    {
        self.out
    }

    pub fn write(&mut self, s: &str)
        ensures
            final(self)@ == jw_write(old(self)@, s@),
    {
        if self.at_line_start {
            let n: usize = self.indent;
            let mut i: usize = 0;
            while i < n
                invariant
                    i <= n,
                    n == self.indent,
                    self.indent == old(self)@.indent,
                    self.at_line_start == true,
                    self.out@ == old(self)@.out + repeat_char(' ', (2 * i) as nat),
                decreases n - i,
            {
                proof {
                    reveal_strlit("  ");
                    assert("  "@ =~= seq![' ', ' ']);
                }
                self.out.append("  ");
                proof {
                    assert(repeat_char(' ', (2 * i + 2) as nat) == repeat_char(
                        ' ',
                        (2 * i + 1) as nat,
                    ).push(' '));
                    assert(repeat_char(' ', (2 * i + 1) as nat) == repeat_char(
                        ' ',
                        (2 * i) as nat,
                    ).push(' '));
                    assert(self.out@ =~= old(self)@.out + repeat_char(' ', (2 * (i + 1)) as nat));
                }
                i += 1;
            }
            self.at_line_start = false;
            self.out.append(s);
            proof {
                assert(final(self)@.out =~= jw_write(old(self)@, s@).out);
            }
        } else {
            self.out.append(s);
        }
    }

    pub fn nl(&mut self)
        ensures
            final(self)@ == jw_nl(old(self)@),
    {
        proof {
            reveal_strlit("\n");
        }
        self.out.append("\n");
        self.at_line_start = true;
        proof {
            assert(final(self)@.out =~= jw_nl(old(self)@).out);
        }
    }

    pub fn comma(&mut self)
        ensures
            final(self)@ == jw_comma(old(self)@),
    {
        self.write(",");
    }

    pub fn comma_nl(&mut self)
        ensures
            final(self)@ == jw_comma_nl(old(self)@),
    {
        self.comma();
        self.nl();
    }

    pub fn obj_begin(&mut self)
        ensures
            final(self)@ == jw_obj_begin(old(self)@),
    {
        self.write("{");
        if self.indent < usize::MAX {
            self.indent = self.indent + 1;
        }
    }

    pub fn obj_end(&mut self)
        ensures
            final(self)@ == jw_obj_end(old(self)@),
    {
        if self.indent > 0 {
            self.indent = self.indent - 1;
        }
        self.nl();
        self.write("}");
    }

    pub fn array_begin(&mut self)
        ensures
            final(self)@ == jw_array_begin(old(self)@),
    {
        self.write("[");
        if self.indent < usize::MAX {
            self.indent = self.indent + 1;
        }
    }

    pub fn array_end(&mut self)
        ensures
            final(self)@ == jw_array_end(old(self)@),
    {
        if self.indent > 0 {
            self.indent = self.indent - 1;
        }
        self.nl();
        self.write("]");
    }

    /// Writes a quoted JSON string, escaping quotes, backslashes, and
    /// control characters.
    pub fn str(&mut self, s: &str)
        ensures
            final(self)@ == jw_str(old(self)@, s@),
    {
        proof {
            reveal_strlit("\"");
            assert("\""@ =~= seq!['"']);
        }
        self.write("\"");
        let ghost mid: JwV = self@;
        let n: usize = s.unicode_len();
        let mut i: usize = 0;
        while i < n
            invariant
                i <= n,
                n == s@.len(),
                self.indent == mid.indent,
                self.at_line_start == false,
                mid.at_line_start == false,
                self.out@ == mid.out + json_escape(s@.take(i as int)),
            decreases n - i,
        {
            let c: char = s.get_char(i);
            let ghost pre: Seq<char> = self.out@;
            let u: u32 = c as u32;
            if c == '"' {
                proof {
                    reveal_strlit("\\\"");
                    assert("\\\""@ =~= seq!['\\', '"']);
                }
                self.out.append("\\\"");
            } else if c == '\\' {
                proof {
                    reveal_strlit("\\\\");
                    assert("\\\\"@ =~= seq!['\\', '\\']);
                }
                self.out.append("\\\\");
            } else if c == '\n' {
                proof {
                    reveal_strlit("\\n");
                    assert("\\n"@ =~= seq!['\\', 'n']);
                }
                self.out.append("\\n");
            } else if c == '\r' {
                proof {
                    reveal_strlit("\\r");
                    assert("\\r"@ =~= seq!['\\', 'r']);
                }
                self.out.append("\\r");
            } else if c == '\t' {
                proof {
                    reveal_strlit("\\t");
                    assert("\\t"@ =~= seq!['\\', 't']);
                }
                self.out.append("\\t");
            } else if u < 0x20 || (0x7f <= u && u <= 0x9f) {
                proof {
                    reveal_strlit("\\u00");
                    assert("\\u00"@ =~= seq!['\\', 'u', '0', '0']);
                }
                self.out.append("\\u00");
                push_hex(&mut self.out, u / 16);
                push_hex(&mut self.out, u % 16);
            } else {
                self.out.append(s.substring_char(i, i + 1));
                proof {
                    assert(s@.subrange(i as int, i + 1) =~= seq![c]);
                }
            }
            proof {
                assert(self.out@ =~= pre + esc_char(c));
                assert(s@.take(i + 1).drop_last() =~= s@.take(i as int));
                assert(s@.take(i + 1).last() == c);
                assert(self.out@ =~= mid.out + json_escape(s@.take(i + 1)));
            }
            i += 1;
        }
        proof {
            assert(s@.take(n as int) =~= s@);
        }
        self.write("\"");
        proof {
            assert(final(self)@.out =~= jw_str(old(self)@, s@).out);
        }
    }

    pub fn key(&mut self, k: &str)
        ensures
            final(self)@ == jw_key(old(self)@, k@),
    {
        if !self.at_line_start {
            self.nl();
        }
        self.str(k);
        self.write(": ");
    }

    pub fn kv_str(&mut self, k: &str, v: &str)
        ensures
            final(self)@ == jw_kv_str(old(self)@, k@, v@),
    {
        self.key(k);
        self.str(v);
    }

    pub fn kv_u64(&mut self, k: &str, v: u64)
        ensures
            final(self)@ == jw_kv_u64(old(self)@, k@, v),
    {
        self.key(k);
        proof {
            assert(!self.at_line_start);
        }
        push_u64_chars(&mut self.out, v);
        proof {
            assert(final(self)@.out =~= jw_kv_u64(old(self)@, k@, v).out);
        }
    }

    /// Writes a number value: the canonical decimal rendering.
    pub fn kv_num(&mut self, k: &str, d: &Decimal)
        ensures
            final(self)@ == jw_kv_num(old(self)@, k@, d@),
    {
        self.key(k);
        let c: String = d.canonical();
        proof {
            assert(!self.at_line_start);
        }
        self.out.append(c.as_str());
        proof {
            assert(final(self)@.out =~= jw_kv_num(old(self)@, k@, d@).out);
        }
    }
}

/// Emits a quantity object from a decimal and an optional unit name.
fn emit_quantity_value(w: &mut JsonWriter, d: &Decimal, unit: Option<&str>)
    ensures
        final(w)@ == spec_emit_quantity_value(
            old(w)@,
            d@,
            match unit {
                Some(u) => Some(u@),
                None => None,
            },
        ),
{
    w.obj_begin();
    w.kv_num("value", d);
    match unit {
        Some(u) => {
            w.comma_nl();
            w.kv_str("unit", u);
        },
        None => {},
    }
    w.obj_end();
}

/// Emits a quantity.
fn emit_quantity(w: &mut JsonWriter, q: &Quantity)
    ensures
        final(w)@ == spec_emit_quantity(old(w)@, q@),
{
    match &q.unit {
        Some(u) => emit_quantity_value(w, &q.value, Some(u.name.as_str())),
        None => emit_quantity_value(w, &q.value, None),
    }
}

/// Emits one expression, returning the view it emitted.
fn emit_expr(w: &mut JsonWriter, e: &Expr) -> (gv: Ghost<ExprV>)
    ensures
        expr_matches(*e, gv@),
        final(w)@ == spec_emit_expr(old(w)@, gv@),
    decreases *e, 1int,
{
    match e {
        Expr::Number(q) => {
            emit_quantity(w, q);
            Ghost(ExprV::Number(q@))
        },
        Expr::String(s) => {
            w.str(s.as_str());
            Ghost(ExprV::StrLit(s@))
        },
        Expr::Ident(id) => {
            w.obj_begin();
            w.kv_str("ident", id.name.as_str());
            w.obj_end();
            Ghost(ExprV::Ident(id@))
        },
        Expr::Call(c) => {
            w.obj_begin();
            w.kv_str("call", c.name.name.as_str());
            w.comma_nl();
            w.key("args");
            w.array_begin();
            let gargs: Ghost<Seq<CallArgV>> = emit_args(w, &c.args);
            if c.args.len() > 0 {
                w.nl();
            }
            w.array_end();
            w.obj_end();
            Ghost(ExprV::Call(crate::ast::CallV { name: c.name@, args: gargs@ }))
        },
    }
}

/// Prefixes agreeing on their first `j` elements emit the same text.
proof fn lemma_emit_args_prefix(st: JwV, a1: Seq<CallArgV>, a2: Seq<CallArgV>, j: int)
    requires
        0 <= j <= a1.len(),
        j <= a2.len(),
        forall|k: int| 0 <= k < j ==> a1[k] == a2[k],
    ensures
        spec_emit_args(st, a1, j) == spec_emit_args(st, a2, j),
    decreases j,
{
    if j > 0 {
        lemma_emit_args_prefix(st, a1, a2, j - 1);
    }
}

/// Emits the arguments of a call, returning the views it emitted.
fn emit_args(w: &mut JsonWriter, args: &Vec<CallArg>) -> (gv: Ghost<Seq<CallArgV>>)
    ensures
        args_match(args@, gv@),
        final(w)@ == spec_emit_args(old(w)@, gv@, gv@.len() as int),
    decreases *args, 1int,
{
    let ghost st0: JwV = w@;
    let mut acc: Ghost<Seq<CallArgV>> = Ghost(Seq::empty());
    let mut j: usize = 0;
    while j < args.len()
        invariant
            j <= args@.len(),
            acc@.len() == j,
            args_match(args@.take(j as int), acc@),
            w@ == spec_emit_args(st0, acc@, j as int),
        decreases args@.len() - j,
    {
        if j != 0 {
            w.comma();
        }
        w.nl();
        let ghost acc0: Seq<CallArgV> = acc@;
        let ghost argv: CallArgV;
        match &args[j] {
            CallArg::Positional(e) => {
                let ge: Ghost<ExprV> = emit_expr(w, e);
                proof {
                    argv = CallArgV::Positional(ge@);
                }
            },
            CallArg::Named { name, value } => {
                w.obj_begin();
                w.kv_str("name", name.name.as_str());
                w.comma_nl();
                w.key("value");
                let ge: Ghost<ExprV> = emit_expr(w, value);
                w.obj_end();
                proof {
                    argv = CallArgV::Named { name: name@, value: ge@ };
                }
            },
        }
        acc = Ghost(acc0.push(argv));
        proof {
            lemma_emit_args_prefix(st0, acc@, acc0, j as int);
            assert(call_arg_matches(args@[j as int], argv));
            assert(args_match(args@.take(j + 1), acc@)) by {
                assert(forall|k: int|
                    0 <= k < j ==> #[trigger] args@.take(j + 1)[k] == args@.take(j as int)[k]);
                assert(args@.take(j + 1)[j as int] == args@[j as int]);
            }
            assert(w@ == spec_emit_args(st0, acc@, j + 1));
        }
        j += 1;
    }
    proof {
        assert(args@.take(args@.len() as int) =~= args@);
    }
    acc
}

/// Prefixes agreeing on their first `j` elements emit the same text.
proof fn lemma_emit_assigns_prefix(st: JwV, a1: Seq<AssignV>, a2: Seq<AssignV>, j: int)
    requires
        0 <= j <= a1.len(),
        j <= a2.len(),
        forall|k: int| 0 <= k < j ==> a1[k] == a2[k],
    ensures
        spec_emit_assigns_upto(st, a1, j) == spec_emit_assigns_upto(st, a2, j),
    decreases j,
{
    if j > 0 {
        lemma_emit_assigns_prefix(st, a1, a2, j - 1);
    }
}

/// Emits an assignment array, returning the views it emitted.
fn emit_assigns(w: &mut JsonWriter, body: &Vec<Assign>) -> (gv: Ghost<Seq<AssignV>>)
    ensures
        assigns_match(body@, gv@),
        final(w)@ == spec_emit_assigns(old(w)@, gv@),
    decreases *body, 1int,
{
    let ghost stp: JwV = w@;
    w.array_begin();
    let ghost st0: JwV = w@;
    let mut acc: Ghost<Seq<AssignV>> = Ghost(Seq::empty());
    let mut j: usize = 0;
    while j < body.len()
        invariant
            j <= body@.len(),
            acc@.len() == j,
            assigns_match(body@.take(j as int), acc@),
            w@ == spec_emit_assigns_upto(st0, acc@, j as int),
        decreases body@.len() - j,
    {
        if j != 0 {
            w.comma();
        }
        w.nl();
        w.obj_begin();
        w.kv_str("key", body[j].key.name.as_str());
        w.comma_nl();
        w.key("value");
        let ge: Ghost<ExprV> = emit_expr(w, &body[j].value);
        w.obj_end();
        let ghost acc0: Seq<AssignV> = acc@;
        let ghost av: AssignV = AssignV { key: body@[j as int].key@, value: ge@ };
        acc = Ghost(acc0.push(av));
        proof {
            lemma_emit_assigns_prefix(st0, acc@, acc0, j as int);
            assert(crate::ast::assign_matches(body@[j as int], av));
            assert(assigns_match(body@.take(j + 1), acc@)) by {
                assert(forall|k: int|
                    0 <= k < j ==> #[trigger] body@.take(j + 1)[k] == body@.take(j as int)[k]);
                assert(body@.take(j + 1)[j as int] == body@[j as int]);
            }
            assert(w@ == spec_emit_assigns_upto(st0, acc@, j + 1));
        }
        j += 1;
    }
    if body.len() > 0 {
        w.nl();
    }
    w.array_end();
    proof {
        assert(body@.take(body@.len() as int) =~= body@);
    }
    acc
}

/// The default step decimal: one.
fn default_step_decimal() -> (d: Decimal)
    ensures
        d@ == default_step_dec(),
{
    let mut int_digits: Vec<u8> = Vec::new();
    int_digits.push(1);
    let d = Decimal { neg: false, int_digits, frac_digits: Vec::new() };
    proof {
        assert(d@.int_digits =~= seq![1u8]);
        assert(d@.frac_digits =~= Seq::<u8>::empty());
    }
    d
}

/// Emits one item, returning the view it emitted.
#[verifier::rlimit(100)]
fn emit_item(w: &mut JsonWriter, it: &Item, seed: u64) -> (gv: Ghost<ItemV>)
    ensures
        item_matches(*it, gv@),
        final(w)@ == spec_emit_item(old(w)@, gv@, seed),
    decreases *it, 2int,
{
    w.obj_begin();
    let gv: Ghost<ItemV>;
    match it {
        Item::Neuron(d) => {
            w.kv_str("kind", "neuron");
            w.comma_nl();
            w.kv_str("name", d.name.name.as_str());
            w.comma_nl();
            w.key("body");
            let gb: Ghost<Seq<AssignV>> = emit_assigns(w, &d.body);
            {
                gv = Ghost(ItemV::Neuron { name: d.name@, body: gb@ });
            }
        },
        Item::Layer(d) => {
            w.kv_str("kind", "layer");
            w.comma_nl();
            w.kv_str("name", d.name.name.as_str());
            w.comma_nl();
            w.kv_u64("size", d.size);
            w.comma_nl();
            w.kv_str("neuron", d.neuron.name.as_str());
            {
                gv = Ghost(ItemV::Layer { name: d.name@, size: d.size, neuron: d.neuron@ });
            }
        },
        Item::Connect(d) => {
            w.kv_str("kind", "connect");
            w.comma_nl();
            w.kv_str("src", d.src.name.as_str());
            w.comma_nl();
            w.kv_str("dst", d.dst.name.as_str());
            w.comma_nl();
            w.key("body");
            let gb: Ghost<Seq<AssignV>> = emit_assigns(w, &d.body);
            {
                gv = Ghost(ItemV::Connect { src: d.src@, dst: d.dst@, body: gb@ });
            }
        },
        Item::Stimulus(d) => {
            w.kv_str("kind", "stimulus");
            w.comma_nl();
            w.kv_str("layer", d.layer.name.as_str());
            w.comma_nl();
            w.key("model");
            w.obj_begin();
            w.kv_str("type", "poisson");
            w.comma_nl();
            w.key("rate");
            match &d.model {
                StimulusModel::Poisson { rate } => {
                    emit_quantity(w, rate);
                    w.obj_end();
                    {
                        gv = Ghost(ItemV::Stimulus { layer: d.layer@, rate: rate@ });
                    }
                },
            }
        },
        Item::Run(d) => {
            w.kv_str("kind", "run");
            w.comma_nl();
            w.key("duration");
            emit_quantity(w, &d.duration);
            w.comma_nl();
            w.key("step");
            match &d.step {
                Some(q) => {
                    emit_quantity(w, q);
                    {
                        gv = Ghost(ItemV::Run { duration: d.duration@, step: Some(q@) });
                    }
                },
                None => {
                    let one: Decimal = default_step_decimal();
                    emit_quantity_value(w, &one, Some("ms"));
                    {
                        gv = Ghost(ItemV::Run { duration: d.duration@, step: None });
                    }
                },
            }
            w.comma_nl();
            w.kv_u64("seed", seed);
        },
        Item::Seed(d) => {
            {
                gv = Ghost(ItemV::Seed { value: d.value, span: d.span });
            }
        },
    }
    w.obj_end();
    gv
}

/// Prefixes agreeing on their first `j` elements emit the same text.
proof fn lemma_emit_items_prefix(st: JwV, a1: Seq<ItemV>, a2: Seq<ItemV>, j: int, seed: u64)
    requires
        0 <= j <= a1.len(),
        j <= a2.len(),
        forall|k: int| 0 <= k < j ==> a1[k] == a2[k],
    ensures
        spec_emit_items(st, a1, j, seed) == spec_emit_items(st, a2, j, seed),
    decreases j,
{
    if j > 0 {
        lemma_emit_items_prefix(st, a1, a2, j - 1, seed);
    }
}

/// Emits the canonical JSON intermediate representation of a program.
///
/// The output is a function of the program's content alone, so it is
/// byte-identical across runs of the same source.
#[verifier::rlimit(100)]
pub fn cvir_json(program: &Program) -> (r: String)
    ensures
        forall|vs: Seq<ItemV>| program_matches(*program, vs) ==> r@ == spec_cvir(vs),
{
    let ghost items: Seq<Item> = program.items@;
    let mut w: JsonWriter = JsonWriter::new();
    w.obj_begin();
    w.kv_str("cvir_version", "0.2");
    w.comma_nl();
    w.key("items");
    w.array_begin();
    let ghost st2: JwV = w@;
    // the value of the first `seed` statement is folded into each `run`
    let mut seed: u64 = 0;
    let mut found: bool = false;
    let mut i: usize = 0;
    while i < program.items.len()
        invariant
            items == program.items@,
            i <= items.len(),
            !found ==> first_seed_exec(items, 0) == first_seed_exec(items, i as int),
            found ==> seed == first_seed_exec(items, 0),
            !found ==> seed == 0,
        decreases items.len() - i,
    {
        if !found {
            match &program.items[i] {
                Item::Seed(d) => {
                    seed = d.value;
                    found = true;
                },
                _ => {},
            }
        }
        i += 1;
    }
    proof {
        if !found {
            assert(first_seed_exec(items, items.len() as int) == 0);
        }
        assert(seed == first_seed_exec(items, 0));
    }
    let mut first: bool = true;
    let mut acc: Ghost<Seq<ItemV>> = Ghost(Seq::empty());
    let mut j: usize = 0;
    while j < program.items.len()
        invariant
            items == program.items@,
            j <= items.len(),
            acc@.len() == j,
            items_match(items.take(j as int), acc@),
            (w@, first) == spec_emit_items(st2, acc@, j as int, seed),
        decreases items.len() - j,
    {
        let ghost acc0: Seq<ItemV> = acc@;
        let ghost itv: ItemV;
        match &program.items[j] {
            Item::Seed(d) => {
                proof {
                    itv = ItemV::Seed { value: d.value, span: d.span };
                }
            },
            _ => {
                if !first {
                    w.comma();
                }
                w.nl();
                let gi: Ghost<ItemV> = emit_item(&mut w, &program.items[j], seed);
                first = false;
                proof {
                    itv = gi@;
                }
            },
        }
        acc = Ghost(acc0.push(itv));
        proof {
            assert(item_matches(items[j as int], itv));
            lemma_emit_items_prefix(st2, acc@, acc0, j as int, seed);
            assert(items_match(items.take(j + 1), acc@)) by {
                assert(forall|k: int|
                    0 <= k < j ==> #[trigger] items.take(j + 1)[k] == items.take(j as int)[k]);
                assert(items.take(j + 1)[j as int] == items[j as int]);
            }
            assert((w@, first) == spec_emit_items(st2, acc@, j + 1, seed));
        }
        j += 1;
    }
    if !first {
        w.nl();
    }
    w.array_end();
    w.nl();
    w.obj_end();
    w.nl();
    let r: String = w.finish();
    proof {
        assert(items.take(items.len() as int) =~= items);
        lemma_first_seed_match(items, acc@, 0);
        assert(r@ == spec_cvir(acc@));
        assert forall|vs: Seq<ItemV>| program_matches(*program, vs) implies r@ == spec_cvir(
            vs,
        ) by {
            lemma_items_unique(items, acc@, vs);
        }
    }
    r
}

} // verus!
