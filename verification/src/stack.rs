use crate::binary::{binrep_spec, get_binary_representation};
use crate::modes::{BinaryMode, BinaryWidth, Modes};
use crate::numerals::{dec_chars, dec_digits, render_i128_dec, render_u128_dec};
use crate::value::{
    lemma_normalize_stored_wf, normalize, normalize_spec, pushable, stored_wf, Flt, StackValue,
};
use vstd::prelude::*;
use vstd::string::StringExecFns;

verus! {

/// How many stack snapshots the undo history keeps; the oldest is evicted
/// first when the bound is reached.
pub const HISTORY_LIMIT: usize = 10;

/// The set of representations a caller of `get` is willing to receive
/// operands in. Combine by setting several flags.
#[derive(Clone, Copy, Debug, PartialEq, Eq)]
pub struct AcceptedTypes {
    pub integers: bool,
    pub fractions: bool,
    pub float: bool,
}

/// The mathematical state of the engine: the live stack, bottom first, and
/// the history of snapshots, oldest first.
#[verifier::ext_equal]
pub ghost struct StackModel {
    pub values: Seq<StackValue>,
    pub history: Seq<Seq<StackValue>>,
}

/// The value stack together with its bounded undo history.
pub struct Stack {
    values: Vec<StackValue>,
    backup: Vec<Vec<StackValue>>,
}

impl View for Stack {
    type V = StackModel;

    closed spec fn view(&self) -> StackModel {
        StackModel {
            values: self.values@,
            history: Seq::new(self.backup@.len(), |i: int| self.backup@[i]@),
        }
    }
}

pub open spec fn seq_stored_wf(s: Seq<StackValue>) -> bool {
    forall|i: int| 0 <= i < s.len() ==> stored_wf(#[trigger] s[i])
}

/// The engine's invariant: every live and every remembered cell is in stored
/// form, and the history respects its bound.
pub open spec fn model_wf(m: StackModel) -> bool {
    &&& seq_stored_wf(m.values)
    &&& m.history.len() <= HISTORY_LIMIT
    &&& forall|i: int| 0 <= i < m.history.len() ==> seq_stored_wf(#[trigger] m.history[i])
}

/// A snapshot added to the history, evicting the oldest entry when full.
pub open spec fn hist_push(h: Seq<Seq<StackValue>>, s: Seq<StackValue>) -> Seq<Seq<StackValue>> {
    let h2 = h.push(s);
    if h2.len() > HISTORY_LIMIT {
        h2.subrange(1, h2.len() as int)
    } else {
        h2
    }
}

/// What `push` does to the whole engine state.
pub open spec fn push_model(m: StackModel, v: StackValue) -> StackModel {
    StackModel { values: m.values.push(normalize_spec(v)), history: hist_push(m.history, m.values) }
}

/// What `drop` does: nothing at all when asked for more than is there.
pub open spec fn drop_model(m: StackModel, count: int) -> StackModel {
    if count > m.values.len() {
        m
    } else {
        StackModel {
            values: m.values.subrange(0, m.values.len() - count),
            history: hist_push(m.history, m.values),
        }
    }
}

/// What `undo` does: nothing when the history is empty.
pub open spec fn undo_model(m: StackModel) -> StackModel {
    if m.history.len() == 0 {
        m
    } else {
        StackModel { values: m.history.last(), history: m.history.drop_last() }
    }
}

/// A cell read in the integer representation: only a fraction over 1
/// qualifies, and it is handed out as the bare integer.
pub open spec fn int_view(v: StackValue) -> Option<StackValue> {
    match v {
        StackValue::Fraction((n, d)) => if d == 1 {
            Some(StackValue::Integer(n))
        } else {
            None
        },
        _ => None,
    }
}

/// A cell read in the fraction representation: fractions pass unchanged.
pub open spec fn frac_view(v: StackValue) -> Option<StackValue> {
    match v {
        StackValue::Fraction(p) => Some(StackValue::Fraction(p)),
        _ => None,
    }
}

/// A cell read in the float representation: a fraction becomes the double
/// quotient of its parts, a double passes unchanged.
pub open spec fn float_view(v: StackValue) -> Option<StackValue> {
    match v {
        StackValue::Fraction((n, d)) => Some(StackValue::Float(Flt::Quotient { num: n, denom: d })),
        StackValue::Float(f) => Some(StackValue::Float(f)),
        StackValue::Integer(_) => None,
    }
}

pub open spec fn ints_ok(win: Seq<StackValue>) -> bool {
    forall|i: int| 0 <= i < win.len() ==> int_view(#[trigger] win[i]) is Some
}

pub open spec fn ints_seq(win: Seq<StackValue>) -> Seq<StackValue> {
    Seq::new(win.len(), |i: int| int_view(win[i]).unwrap())
}

pub open spec fn fracs_ok(win: Seq<StackValue>) -> bool {
    forall|i: int| 0 <= i < win.len() ==> frac_view(#[trigger] win[i]) is Some
}

pub open spec fn fracs_seq(win: Seq<StackValue>) -> Seq<StackValue> {
    Seq::new(win.len(), |i: int| frac_view(win[i]).unwrap())
}

pub open spec fn floats_ok(win: Seq<StackValue>) -> bool {
    forall|i: int| 0 <= i < win.len() ==> float_view(#[trigger] win[i]) is Some
}

pub open spec fn floats_seq(win: Seq<StackValue>) -> Seq<StackValue> {
    Seq::new(win.len(), |i: int| float_view(win[i]).unwrap())
}

/// The top `count` cells of the stack, deepest first.
pub open spec fn window(values: Seq<StackValue>, count: int) -> Seq<StackValue> {
    values.subrange(values.len() - count, values.len() as int)
}

/// The whole contract of `get`: the first accepted representation, tried in
/// the fixed priority order integers, fractions, float, for which every cell
/// of the window converts; no value when none fits or the stack is too
/// shallow.
pub open spec fn get_spec(values: Seq<StackValue>, count: int, types: AcceptedTypes) -> Option<
    Seq<StackValue>,
> {
    if count > values.len() {
        None
    } else {
        let win = window(values, count);
        if types.integers && ints_ok(win) {
            Some(ints_seq(win))
        } else if types.fractions && fracs_ok(win) {
            Some(fracs_seq(win))
        } else if types.float && floats_ok(win) {
            Some(floats_seq(win))
        } else {
            None
        }
    }
}

fn clone_values(v: &Vec<StackValue>) -> (r: Vec<StackValue>)
    ensures
        r@ == v@,
{
    let mut r: Vec<StackValue> = Vec::new();
    let mut i: usize = 0;
    while i < v.len()
        invariant
            i <= v.len(),
            r@ == v@.subrange(0, i as int),
        decreases v.len() - i,
    {
        r.push(v[i]);
        i += 1;
    }
    assert(r@ =~= v@);
    r
}

impl Stack {
    pub open spec fn wf(&self) -> bool {
        model_wf(self@)
    }

    /// A fresh engine: empty stack, empty history.
    pub fn new() -> (s: Stack)
        ensures
            s.wf(),
            s@.values == Seq::<StackValue>::empty(),
            s@.history == Seq::<Seq<StackValue>>::empty(),
    {
        let s = Stack { values: Vec::new(), backup: Vec::new() };
        proof {
            assert(s@.history =~= Seq::<Seq<StackValue>>::empty());
        }
        s
    }

    /// Remember the current stack in the history, evicting the oldest
    /// snapshot when the bound is reached.
    fn backup_stack(&mut self)
        requires
            old(self).wf(),
        ensures
            final(self).wf(),
            final(self)@.values == old(self)@.values,
            final(self)@.history == hist_push(old(self)@.history, old(self)@.values),
    {
        let snapshot = clone_values(&self.values);
        self.backup.push(snapshot);
        if self.backup.len() > HISTORY_LIMIT {
            self.backup.remove(0);
        }
        proof {
            assert(self@.history =~= hist_push(old(self)@.history, old(self)@.values));
        }
    }

    /// Normalize the value, remember the current stack, and append. Always
    /// succeeds on any representable value.
    pub fn push(&mut self, value: StackValue)
        requires
            old(self).wf(),
            pushable(value),
        ensures
            final(self).wf(),
            final(self)@ == push_model(old(self)@, value),
    {
        proof {
            lemma_normalize_stored_wf(value);
        }
        let value = normalize(value);
        self.backup_stack();
        self.values.push(value);
        proof {
            assert(self@ =~= push_model(old(self)@, value));
        }
    }

    /// Remove the top `count` cells; silently a no-op when fewer are present.
    pub fn drop(&mut self, count: usize)
        requires
            old(self).wf(),
        ensures
            final(self).wf(),
            final(self)@ == drop_model(old(self)@, count as int),
            count > old(self)@.values.len() ==> final(self)@ == old(self)@,
    {
        if count > self.values.len() {
            return ;
        }
        let start = self.values.len() - count;
        self.backup_stack();
        self.values.truncate(start);
        proof {
            assert(self@ =~= drop_model(old(self)@, count as int));
        }
    }

    /// Replace the live stack with the newest snapshot; silently a no-op when
    /// the history is empty.
    pub fn undo(&mut self)
        requires
            old(self).wf(),
        ensures
            final(self).wf(),
            final(self)@ == undo_model(old(self)@),
    {
        let previous = self.backup.pop();
        match previous {
            Some(p) => {
                self.values = p;
            },
            None => {},
        }
        proof {
            assert(self@ =~= undo_model(old(self)@));
        }
    }

    /// How many snapshots the history currently holds.
    pub fn get_stackbackup_length(&self) -> (r: usize)
        ensures
            r == self@.history.len(),
    {
        self.backup.len()
    }

    fn pass_integers(&self, start: usize) -> (r: Option<Vec<StackValue>>)
        requires
            start <= self@.values.len(),
        ensures
            ({
                let win = self@.values.subrange(start as int, self@.values.len() as int);
                match r {
                    Some(v) => ints_ok(win) && v@ == ints_seq(win),
                    None => !ints_ok(win),
                }
            }),
    {
        let ghost win = self@.values.subrange(start as int, self@.values.len() as int);
        let mut result: Vec<StackValue> = Vec::new();
        let mut i: usize = start;
        while i < self.values.len()
            invariant
                start <= i <= self@.values.len(),
                win == self@.values.subrange(start as int, self@.values.len() as int),
                forall|j: int| 0 <= j < i - start ==> int_view(#[trigger] win[j]) is Some,
                result@ =~= ints_seq(win.subrange(0, i - start)),
            decreases self@.values.len() - i,
        {
            match self.values[i] {
                StackValue::Fraction((n, d)) => {
                    if d != 1 {
                        assert(int_view(win[i - start]) is None);
                        return None;
                    }
                    result.push(StackValue::Integer(n));
                },
                _ => {
                    assert(int_view(win[i - start]) is None);
                    return None;
                },
            }
            i += 1;
            proof {
                assert(result@ =~= ints_seq(win.subrange(0, i - start)));
            }
        }
        proof {
            assert(win.subrange(0, win.len() as int) =~= win);
            assert(result@ =~= ints_seq(win));
        }
        Some(result)
    }

    fn pass_fractions(&self, start: usize) -> (r: Option<Vec<StackValue>>)
        requires
            start <= self@.values.len(),
        ensures
            ({
                let win = self@.values.subrange(start as int, self@.values.len() as int);
                match r {
                    Some(v) => fracs_ok(win) && v@ == fracs_seq(win),
                    None => !fracs_ok(win),
                }
            }),
    {
        let ghost win = self@.values.subrange(start as int, self@.values.len() as int);
        let mut result: Vec<StackValue> = Vec::new();
        let mut i: usize = start;
        while i < self.values.len()
            invariant
                start <= i <= self@.values.len(),
                win == self@.values.subrange(start as int, self@.values.len() as int),
                forall|j: int| 0 <= j < i - start ==> frac_view(#[trigger] win[j]) is Some,
                result@ =~= fracs_seq(win.subrange(0, i - start)),
            decreases self@.values.len() - i,
        {
            match self.values[i] {
                StackValue::Fraction(frac) => {
                    result.push(StackValue::Fraction(frac));
                },
                _ => {
                    assert(frac_view(win[i - start]) is None);
                    return None;
                },
            }
            i += 1;
            proof {
                assert(result@ =~= fracs_seq(win.subrange(0, i - start)));
            }
        }
        proof {
            assert(win.subrange(0, win.len() as int) =~= win);
            assert(result@ =~= fracs_seq(win));
        }
        Some(result)
    }

    fn pass_float(&self, start: usize) -> (r: Option<Vec<StackValue>>)
        requires
            start <= self@.values.len(),
        ensures
            ({
                let win = self@.values.subrange(start as int, self@.values.len() as int);
                match r {
                    Some(v) => floats_ok(win) && v@ == floats_seq(win),
                    None => !floats_ok(win),
                }
            }),
    {
        let ghost win = self@.values.subrange(start as int, self@.values.len() as int);
        let mut result: Vec<StackValue> = Vec::new();
        let mut i: usize = start;
        while i < self.values.len()
            invariant
                start <= i <= self@.values.len(),
                win == self@.values.subrange(start as int, self@.values.len() as int),
                forall|j: int| 0 <= j < i - start ==> float_view(#[trigger] win[j]) is Some,
                result@ =~= floats_seq(win.subrange(0, i - start)),
            decreases self@.values.len() - i,
        {
            match self.values[i] {
                StackValue::Fraction((n, d)) => {
                    result.push(StackValue::Float(Flt::Quotient { num: n, denom: d }));
                },
                StackValue::Float(f) => {
                    result.push(StackValue::Float(f));
                },
                _ => {
                    assert(float_view(win[i - start]) is None);
                    return None;
                },
            }
            i += 1;
            proof {
                assert(result@ =~= floats_seq(win.subrange(0, i - start)));
            }
        }
        proof {
            assert(win.subrange(0, win.len() as int) =~= win);
            assert(result@ =~= floats_seq(win));
        }
        Some(result)
    }

    /// Peek at the top `count` cells in the first accepted representation
    /// that fits all of them, deepest first; no value when the stack is too
    /// shallow or no accepted representation fits.
    pub fn get(&self, count: usize, types: AcceptedTypes) -> (r: Option<Vec<StackValue>>)
        ensures
            count > self@.values.len() ==> r is None,
            (r is Some) == (get_spec(self@.values, count as int, types) is Some),
            r matches Some(v) ==> Some(v@) == get_spec(self@.values, count as int, types),
    {
        if count > self.values.len() {
            return None;
        }
        let start = self.values.len() - count;
        if types.integers {
            let r = self.pass_integers(start);
            if r.is_some() {
                return r;
            }
        }
        if types.fractions {
            let r = self.pass_fractions(start);
            if r.is_some() {
                return r;
            }
        }
        if types.float {
            let r = self.pass_float(start);
            if r.is_some() {
                return r;
            }
        }
        None
    }

    /// Peek at the top `count` cells exactly as stored, deepest first.
    pub fn get_values(&self, count: usize) -> (r: Option<Vec<StackValue>>)
        ensures
            count > self@.values.len() ==> r is None,
            count <= self@.values.len() ==> (r matches Some(v) && v@ == window(
                self@.values,
                count as int,
            )),
    {
        if count > self.values.len() {
            return None;
        }
        let start = self.values.len() - count;
        let mut result: Vec<StackValue> = Vec::new();
        let mut i: usize = start;
        while i < self.values.len()
            invariant
                start <= i <= self@.values.len(),
                result@ =~= self@.values.subrange(start as int, i as int),
            decreases self@.values.len() - i,
        {
            result.push(self.values[i]);
            i += 1;
        }
        proof {
            assert(result@ =~= window(self@.values, count as int));
        }
        Some(result)
    }
}

/// One rendered line of the stack display. The engine renders everything it
/// can exactly — labels, integers, fractions, the binary annotation — and
/// hands a line that ends in a double out with its text prefix, for the
/// caller to append the native decimal rendering of the double.
#[derive(Debug, PartialEq, Eq)]
pub enum StackLine {
    /// A fully rendered line.
    Done(String),
    /// A line whose text so far is `prefix` and whose tail is the decimal
    /// rendering of `value`, which only native floating point can produce.
    NeedsFloat { prefix: String, value: Flt },
}

/// The mathematical content of a rendered line.
pub ghost enum LineModel {
    Text(Seq<char>),
    WithFloat(Seq<char>, Flt),
}

impl View for StackLine {
    type V = LineModel;

    open spec fn view(&self) -> LineModel {
        match self {
            StackLine::Done(s) => LineModel::Text(s@),
            StackLine::NeedsFloat { prefix, value } => LineModel::WithFloat(prefix@, *value),
        }
    }
}

/// A run of spaces.
pub open spec fn spaces(k: int) -> Seq<char>
    decreases k,
{
    if k <= 0 {
        Seq::empty()
    } else {
        spaces(k - 1).push(' ')
    }
}

/// A stack label as displayed: the index right-aligned to four columns,
/// then a colon and a space.
pub open spec fn line_prefix(idx: nat) -> Seq<char> {
    spaces(4 - dec_digits(idx).len()) + dec_digits(idx) + ": "@
}

/// One line of the stack display: a double is left for native rendering
/// after its label; an integral fraction shows its integer and the binary
/// annotation; any other fraction shows numerator and denominator and leaves
/// the quotient for native rendering.
pub open spec fn stack_line_spec(idx: nat, v: StackValue, m: BinaryMode, w: BinaryWidth) -> LineModel {
    match v {
        StackValue::Float(f) => LineModel::WithFloat(line_prefix(idx), f),
        StackValue::Fraction((n, d)) => if d == 1 {
            LineModel::Text(line_prefix(idx) + dec_chars(n as int) + binrep_spec(n as int, m, w))
        } else {
            LineModel::WithFloat(
                line_prefix(idx) + dec_chars(n as int) + "/"@ + dec_chars(d as int) + " = "@,
                Flt::Quotient { num: n, denom: d },
            )
        },
        StackValue::Integer(_) => LineModel::Text("Error"@),
    }
}

/// The whole stack display, topmost cell first: the top of the stack is
/// labelled 0 and comes first, labels incrementing down the sequence.
pub open spec fn contents_spec(
    values: Seq<StackValue>,
    m: BinaryMode,
    w: BinaryWidth,
) -> Seq<LineModel> {
    Seq::new(values.len(), |i: int| stack_line_spec(i as nat, values[values.len() - 1 - i], m, w))
}

fn render_line_prefix(idx: usize) -> (r: String)
    ensures
        r@ == line_prefix(idx as nat),
{
    let digits = render_u128_dec(idx as u128);
    let dlen = digits.as_str().unicode_len();
    let mut s = String::new();
    let mut k = dlen;
    proof {
        reveal_strlit(" ");
        assert(s@ =~= spaces(k - dlen));
    }
    while k < 4
        invariant
            dlen <= k,
            dlen >= 4 ==> k == dlen,
            dlen < 4 ==> k <= 4,
            s@ == spaces(k - dlen),
        decreases 4 - k,
    {
        s.append(" ");
        k = k + 1;
        proof {
            reveal_strlit(" ");
            assert(" "@ =~= seq![' ']);
            assert(spaces(k - dlen) =~= spaces(k - 1 - dlen).push(' '));
            assert(s@ =~= spaces(k - dlen));
        }
    }
    proof {
        assert(s@ =~= spaces(4 - dec_digits(idx as nat).len()));
    }
    s.concat(digits.as_str()).concat(": ")
}

impl Stack {
    /// The stack rendered for display, one line per cell, topmost first, the
    /// top labelled 0. Lines that end in a double are handed out with their
    /// prefix for the caller to complete.
    pub fn get_stack_contents(&self, modes: &Modes) -> (r: Vec<StackLine>)
        ensures
            r@.len() == self@.values.len(),
            forall|i: int|
                0 <= i < r@.len() ==> #[trigger] r@[i]@ == contents_spec(
                    self@.values,
                    modes.spec_mode(),
                    modes.spec_width(),
                )[i],
    {
        let ghost m = modes.spec_mode();
        let ghost w = modes.spec_width();
        let len = self.values.len();
        let mut output: Vec<StackLine> = Vec::new();
        let mut i: usize = 0;
        while i < len
            invariant
                len == self@.values.len(),
                i <= len,
                m == modes.spec_mode(),
                w == modes.spec_width(),
                output@.len() == i,
                forall|j: int|
                    0 <= j < i ==> #[trigger] output@[j]@ == contents_spec(self@.values, m, w)[j],
            decreases len - i,
        {
            let idx = i;
            let line = match self.values[len - 1 - i] {
                StackValue::Float(f) => StackLine::NeedsFloat {
                    prefix: render_line_prefix(idx),
                    value: f,
                },
                StackValue::Fraction((n, d)) => {
                    if d == 1 {
                        let text = render_line_prefix(idx).concat(
                            render_i128_dec(n).as_str(),
                        ).concat(get_binary_representation(n, modes).as_str());
                        StackLine::Done(text)
                    } else {
                        let prefix = render_line_prefix(idx).concat(
                            render_i128_dec(n).as_str(),
                        ).concat("/").concat(render_i128_dec(d).as_str()).concat(" = ");
                        StackLine::NeedsFloat {
                            prefix,
                            value: Flt::Quotient { num: n, denom: d },
                        }
                    }
                },
                StackValue::Integer(_) => StackLine::Done(String::from_str("Error")),
            };
            output.push(line);
            i = i + 1;
        }
        output
    }
}

/// The law of integer transparency: after pushing a whole number, reading one
/// cell in the integer representation hands the same number back.
pub proof fn lemma_integer_push_transparent(m: StackModel, i: i128)
    ensures
        ({
            let m2 = push_model(m, StackValue::Integer(i));
            get_spec(
                m2.values,
                1,
                AcceptedTypes { integers: true, fractions: false, float: false },
            ) == Some(seq![StackValue::Integer(i)])
        }),
{
    let m2 = push_model(m, StackValue::Integer(i));
    let win = window(m2.values, 1);
    assert(win =~= seq![StackValue::Fraction((i, 1))]);
    assert(int_view(win[0]) is Some);
    assert(ints_seq(win) =~= seq![StackValue::Integer(i)]);
}

/// The law of the float snap: a double whose thousandfold reading is `k` is
/// stored as the reduced fraction `k / 1000`, and reading one cell as a
/// fraction returns exactly that.
pub proof fn lemma_float_snap(m: StackModel, bits: u64, k: i128)
    ensures
        ({
            let v = StackValue::Float(Flt::Native { bits, milli: Some(k) });
            let m2 = push_model(m, v);
            get_spec(m2.values, 1, AcceptedTypes { integers: false, fractions: true, float: false })
                == Some(seq![normalize_spec(v)])
        }),
{
    let v = StackValue::Float(Flt::Native { bits, milli: Some(k) });
    let m2 = push_model(m, v);
    let win = window(m2.values, 1);
    crate::value::lemma_norm_fits_pos_denom(k as int, 1000);
    crate::value::lemma_normalize_stored_wf(v);
    assert(win =~= seq![normalize_spec(v)]);
    assert(normalize_spec(v) is Fraction);
    assert(fracs_seq(win) =~= seq![normalize_spec(v)]);
}

/// The law of lossy float rejection: a double that carries no exactness fact
/// stays a double; reading it as a fraction yields no value, reading it as a
/// float returns it unchanged.
pub proof fn lemma_lossy_float_kept(m: StackModel, bits: u64)
    ensures
        ({
            let v = StackValue::Float(Flt::Native { bits, milli: None });
            let m2 = push_model(m, v);
            &&& get_spec(
                m2.values,
                1,
                AcceptedTypes { integers: false, fractions: true, float: false },
            ) is None
            &&& get_spec(
                m2.values,
                1,
                AcceptedTypes { integers: false, fractions: false, float: true },
            ) == Some(seq![v])
        }),
{
    let v = StackValue::Float(Flt::Native { bits, milli: None });
    let m2 = push_model(m, v);
    let win = window(m2.values, 1);
    assert(win =~= seq![v]);
    assert(frac_view(win[0]) is None);
    assert(floats_seq(win) =~= seq![v]);
}

/// The law of priority: whenever the integer representation is accepted and
/// every cell of the window converts to it, `get` returns the integer
/// representation, whatever else is accepted.
pub proof fn lemma_get_priority_integers(values: Seq<StackValue>, count: int, types: AcceptedTypes)
    requires
        types.integers,
        0 <= count <= values.len(),
        ints_ok(window(values, count)),
    ensures
        get_spec(values, count, types) == Some(ints_seq(window(values, count))),
{
}

/// The law of the undo round trip: push two values, drop one, undo; the
/// stack holds both pushed values again.
pub proof fn lemma_undo_round_trip(m: StackModel, a: StackValue, b: StackValue)
    ensures
        ({
            let m2 = push_model(push_model(m, a), b);
            undo_model(drop_model(m2, 1)).values == m2.values
        }),
{
    let m2 = push_model(push_model(m, a), b);
    let m3 = drop_model(m2, 1);
    assert(m3.history.last() == m2.values);
}

/// The law of the bounded history: a snapshot always lands at the newest end;
/// below the bound nothing is lost, at the bound exactly the oldest snapshot
/// is evicted.
pub proof fn lemma_history_fifo(h: Seq<Seq<StackValue>>, s: Seq<StackValue>)
    requires
        h.len() <= HISTORY_LIMIT,
    ensures
        hist_push(h, s).len() == if h.len() < HISTORY_LIMIT {
            h.len() + 1
        } else {
            HISTORY_LIMIT as nat
        },
        hist_push(h, s).last() == s,
        h.len() < HISTORY_LIMIT ==> hist_push(h, s) == h.push(s),
        h.len() == HISTORY_LIMIT ==> hist_push(h, s) == h.subrange(1, h.len() as int).push(s),
{
    if h.len() == HISTORY_LIMIT {
        assert(hist_push(h, s) =~= h.subrange(1, h.len() as int).push(s));
    }
}

/// The history after a run of mutating operations, each of which remembers
/// its pre-state: `snaps` are those pre-states, oldest first, added one by
/// one exactly as `push` and `drop` add them.
pub open spec fn hist_push_all(
    h: Seq<Seq<StackValue>>,
    snaps: Seq<Seq<StackValue>>,
) -> Seq<Seq<StackValue>>
    decreases snaps.len(),
{
    if snaps.len() == 0 {
        h
    } else {
        hist_push_all(hist_push(h, snaps.first()), snaps.drop_first())
    }
}

/// Adding snapshots one by one keeps exactly the newest ten of everything
/// ever remembered.
pub proof fn lemma_hist_push_all(h: Seq<Seq<StackValue>>, snaps: Seq<Seq<StackValue>>)
    requires
        h.len() <= HISTORY_LIMIT,
    ensures
        hist_push_all(h, snaps) == if h.len() + snaps.len() <= HISTORY_LIMIT {
            h + snaps
        } else {
            (h + snaps).skip(h.len() + snaps.len() - HISTORY_LIMIT)
        },
    decreases snaps.len(),
{
    if snaps.len() == 0 {
        assert(h + snaps =~= h);
    } else {
        let h2 = hist_push(h, snaps.first());
        let rest = snaps.drop_first();
        lemma_hist_push_all(h2, rest);
        if h.len() < HISTORY_LIMIT {
            assert(h2 =~= h.push(snaps.first()));
            assert(h2 + rest =~= h + snaps);
            if h2.len() + rest.len() > HISTORY_LIMIT {
                assert((h2 + rest).skip(h2.len() + rest.len() - HISTORY_LIMIT) =~= (h + snaps).skip(
                    h.len() + snaps.len() - HISTORY_LIMIT,
                ));
            }
        } else {
            assert(h2 =~= h.subrange(1, h.len() as int).push(snaps.first()));
            assert(h2 + rest =~= (h + snaps).skip(1));
            if h2.len() + rest.len() <= HISTORY_LIMIT {
                assert(rest.len() == 0);
                assert(h2 + rest =~= (h + snaps).skip(h.len() + snaps.len() - HISTORY_LIMIT));
            } else {
                assert(((h + snaps).skip(1)).skip(h2.len() + rest.len() - HISTORY_LIMIT) =~= (h
                    + snaps).skip(h.len() + snaps.len() - HISTORY_LIMIT));
            }
        }
    }
}

/// The law of the bounded history, over any run of mutating operations: from
/// any well-formed state, ten or more operations leave exactly ten history
/// entries — the pre-states the last ten operations remembered, in order,
/// everything older evicted oldest-first.
pub proof fn lemma_history_bound(h: Seq<Seq<StackValue>>, snaps: Seq<Seq<StackValue>>)
    requires
        h.len() <= HISTORY_LIMIT,
        snaps.len() >= HISTORY_LIMIT,
    ensures
        hist_push_all(h, snaps).len() == HISTORY_LIMIT,
        hist_push_all(h, snaps) == snaps.skip(snaps.len() - HISTORY_LIMIT),
{
    lemma_hist_push_all(h, snaps);
    assert((h + snaps).skip(h.len() + snaps.len() - HISTORY_LIMIT) =~= snaps.skip(
        snaps.len() - HISTORY_LIMIT,
    ));
}

} // verus!
