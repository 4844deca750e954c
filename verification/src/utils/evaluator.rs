//! Evaluation of constraint expressions against a bag of context values, by
//! way of `evalexpr`, with the engine's own built-in functions in place of
//! those that `evalexpr` offers of itself.

use evalexpr::{
    Context, ContextWithMutableFunctions, ContextWithMutableVariables, EvalexprError, Function,
    HashMapContext, Value,
};
use vstd::prelude::*;
use vstd::string::*;

use crate::common::{Property, RbacError, ValueWrapper};
use crate::utils::clock;
use crate::utils::text::{regex_search, regex_whole, try_regex_find, try_regex_match};

verus! {

/// `evalexpr`'s context of variables and functions; opaque here.
#[verifier::external_type_specification]
#[verifier::external_body]
pub struct ExHashMapContext(HashMapContext);

/// `evalexpr`'s value; opaque here, read through `decode`.
#[verifier::external_type_specification]
#[verifier::external_body]
pub struct ExValue(Value);

/// `evalexpr`'s error; opaque here, read through `error_text`.
#[verifier::external_type_specification]
#[verifier::external_body]
pub struct ExEvalexprError(EvalexprError);

/// The built-in functions that every evaluation offers.
#[derive(Debug, Clone, Copy, PartialEq, Eq, Structural)]
pub enum Builtin {
    RegexMatch,
    RegexFind,
    CurrentYear,
    CurrentMonth,
    DayOfMonth,
    CurrentOrdinal,
    CurrentWeekday,
    CurrentEpochSecs,
    DateEpochSecs,
    DatetimeEpochSecs,
}

/// What an `evalexpr` value holds, one level deep: the items of a tuple are
/// values again. A float is given by the 64 bits of its IEEE 754 form.
pub enum Held {
    Text(Seq<char>),
    Float(u64),
    Int(i64),
    Boolean(bool),
    Tuple(Seq<Value>),
    Empty,
}

/// What `value` holds: the variant of `evalexpr::Value` that it is, with the
/// field of that variant.
pub uninterp spec fn held(value: Value) -> Held;

/// The text that `evalexpr` prints for `e`.
pub uninterp spec fn printed(e: EvalexprError) -> Seq<char>;

/// The variables that `ctx` binds, each with what its value holds.
pub uninterp spec fn variables(ctx: HashMapContext) -> Map<Seq<char>, Held>;

/// The built-ins of this library that `ctx` offers, each under the name by
/// which an expression calls it. A function that `ctx` has from elsewhere is
/// not among them.
pub uninterp spec fn builtins(ctx: HashMapContext) -> Map<Seq<char>, Builtin>;

/// Whether `evalexpr`'s own functions are switched off in `ctx`, so that an
/// expression can call only the functions that the context holds.
pub uninterp spec fn guarded(ctx: HashMapContext) -> bool;

/// One level of an `evalexpr` value, taken apart.
enum Decoded {
    Text(String),
    Float(u64),
    Int(i64),
    Boolean(bool),
    Tuple(Vec<Value>),
    Empty,
}

impl Decoded {
    spec fn shape(&self) -> Held {
        match self {
            Decoded::Text(s) => Held::Text(s@),
            Decoded::Float(bits) => Held::Float(*bits),
            Decoded::Int(i) => Held::Int(*i),
            Decoded::Boolean(b) => Held::Boolean(*b),
            Decoded::Tuple(items) => Held::Tuple(items@),
            Decoded::Empty => Held::Empty,
        }
    }
}

/// What a context value holds once it is handed to `evalexpr`.
pub open spec fn plain(w: ValueWrapper) -> Held {
    match w {
        ValueWrapper::Bool(b) => Held::Boolean(b),
        ValueWrapper::String(s) => Held::Text(s@),
        ValueWrapper::Int(i) => Held::Int(i),
        ValueWrapper::Float(bits) => Held::Float(bits),
    }
}

/// What each of `args` holds, in order.
pub open spec fn plains(args: Seq<ValueWrapper>) -> Seq<Held> {
    args.map_values(|w: ValueWrapper| plain(w))
}

/// Whether two values are of one kind: `evalexpr` compares the variants and
/// not the fields.
pub open spec fn same_kind(a: Held, b: Held) -> bool {
    match a {
        Held::Text(_) => b is Text,
        Held::Float(_) => b is Float,
        Held::Int(_) => b is Int,
        Held::Boolean(_) => b is Boolean,
        Held::Tuple(_) => b is Tuple,
        Held::Empty => b is Empty,
    }
}

/// Whether a context with the variables `vars` lets `name` be bound to a value
/// that holds `h`: the name is free, or bound to a value of the same kind.
pub open spec fn accepts(vars: Map<Seq<char>, Held>, name: Seq<char>, h: Held) -> bool {
    vars.contains_key(name) ==> same_kind(vars[name], h)
}

/// What an evaluation came to, as plain data.
#[derive(Debug, PartialEq)]
pub enum Evaluated {
    Boolean(bool),
    Int(i64),
    Float(u64),
    Text(String),
    Tuple,
    Empty,
    Failed(String),
}

/// The variables of a context that binds none.
pub open spec fn no_variables() -> Map<Seq<char>, Held> {
    Map::empty()
}

/// The built-ins of a context that offers none.
pub open spec fn no_builtins() -> Map<Seq<char>, Builtin> {
    Map::empty()
}

/// An empty context, from `HashMapContext::new`, which constructs one with no
/// mappings.
#[verifier::external_body]
pub(crate) fn new_context() -> (ctx: HashMapContext)
    ensures
        variables(ctx) == no_variables(),
        builtins(ctx) == no_builtins(),
{
    HashMapContext::new()
}

/// A copy of a context, from its `Clone` impl, which copies the variables and
/// the functions.
#[verifier::external_body]
fn clone_context(ctx: &HashMapContext) -> (copy: HashMapContext)
    ensures
        variables(copy) == variables(*ctx),
        builtins(copy) == builtins(*ctx),
{
    ctx.clone()
}

/// The `evalexpr` value that stands for a context value: the variant of the
/// same kind with the same field; a float is rebuilt from its bits.
#[verifier::external_body]
fn to_value(v: &ValueWrapper) -> (value: Value)
    ensures
        held(value) == plain(*v),
{
    match v {
        ValueWrapper::Bool(b) => Value::Boolean(*b),
        ValueWrapper::String(s) => Value::String(s.clone()),
        ValueWrapper::Int(i) => Value::Int(*i),
        ValueWrapper::Float(bits) => Value::Float(evalexpr::FloatType::from_bits(*bits)),
    }
}

/// Takes one level of an `evalexpr` value apart, variant by variant: the
/// result is what the value holds.
#[verifier::external_body]
fn decode(value: &Value) -> (d: Decoded)
    ensures
        d.shape() == held(*value),
{
    match value {
        Value::String(s) => Decoded::Text(s.clone()),
        Value::Float(x) => Decoded::Float(x.to_bits()),
        Value::Int(i) => Decoded::Int(*i),
        Value::Boolean(b) => Decoded::Boolean(*b),
        Value::Tuple(items) => Decoded::Tuple(items.clone()),
        Value::Empty => Decoded::Empty,
    }
}

/// Binds a variable with `ContextWithMutableVariables::set_value`. A name
/// that is free is bound, and one that is bound to a value of the same kind is
/// bound anew; a name that is bound to a value of another kind is refused, and
/// the context stays as it was. The functions are not touched.
#[verifier::external_body]
fn set_value(ctx: &mut HashMapContext, name: &str, value: Value) -> (r: Result<(), EvalexprError>)
    ensures
        r is Ok <==> accepts(variables(*old(ctx)), name@, held(value)),
        r is Ok ==> variables(*final(ctx)) == variables(*old(ctx)).insert(name@, held(value)),
        r is Err ==> variables(*final(ctx)) == variables(*old(ctx)),
        builtins(*final(ctx)) == builtins(*old(ctx)),
{
    ctx.set_value(name.to_string(), value)
}

/// Binds `name` to the built-in `which` with
/// `ContextWithMutableFunctions::set_function`, which puts the function under
/// the name, in place of any that stood there, and always succeeds; when the
/// expression calls the name, `apply_builtin` computes the result. The
/// variables are not touched.
#[verifier::external_body]
fn register(ctx: &mut HashMapContext, name: &str, which: Builtin) -> (r: Result<(), EvalexprError>)
    ensures
        r is Ok,
        builtins(*final(ctx)) == builtins(*old(ctx)).insert(name@, which),
        variables(*final(ctx)) == variables(*old(ctx)),
{
    ctx.set_function(name.to_string(), Function::new(move |arg: &Value| apply_builtin(which, arg)))
}

/// Switches `evalexpr`'s own functions off with
/// `Context::set_builtin_functions_disabled`, which for a `HashMapContext`
/// sets the switch and always succeeds. The variables and the functions that
/// the context holds are not touched.
#[verifier::external_body]
fn switch_off_own_functions(ctx: &mut HashMapContext) -> (r: Result<(), EvalexprError>)
    ensures
        r is Ok,
        guarded(*final(ctx)),
        variables(*final(ctx)) == variables(*old(ctx)),
        builtins(*final(ctx)) == builtins(*old(ctx)),
{
    ctx.set_builtin_functions_disabled(true)
}

/// Evaluates `expr` with `evalexpr::eval_with_context`, in a context in which
/// `evalexpr`'s own functions are switched off: among them is one that cuts a
/// text at byte offsets and does not return where an offset falls inside a
/// character. The operators compute with checked arithmetic. The outcome
/// depends on the functions that the context holds and, through them, on the
/// clock: nothing is promised of it.
#[verifier::external_body]
fn eval_in(expr: &str, ctx: &HashMapContext) -> (r: Result<Value, EvalexprError>)
    requires
        guarded(*ctx),
{
    evalexpr::eval_with_context(expr, ctx)
}

/// An `EvalexprError::CustomMessage` with the given text.
#[verifier::external_body]
fn custom_error(message: String) -> (e: EvalexprError) {
    EvalexprError::CustomMessage(message)
}

/// The text that `evalexpr` prints for an error.
#[verifier::external_body]
fn error_text(e: &EvalexprError) -> (text: String)
    ensures
        text@ == printed(*e),
{
    e.to_string()
}

/// The name under which an expression calls a built-in.
pub open spec fn builtin_name(which: Builtin) -> Seq<char> {
    match which {
        Builtin::RegexMatch => "regex_match"@,
        Builtin::RegexFind => "regex_find"@,
        Builtin::CurrentYear => "current_year"@,
        Builtin::CurrentMonth => "current_month"@,
        Builtin::DayOfMonth => "day_of_month"@,
        Builtin::CurrentOrdinal => "current_ordinal"@,
        Builtin::CurrentWeekday => "current_weekday"@,
        Builtin::CurrentEpochSecs => "current_epoch_secs"@,
        Builtin::DateEpochSecs => "date_epoch_secs"@,
        Builtin::DatetimeEpochSecs => "datetime_epoch_secs"@,
    }
}

/// The integer at position `i` of `args`, if an integer stands there.
pub open spec fn int_at(args: Seq<Held>, i: int) -> Option<int> {
    if 0 <= i < args.len() {
        match args[i] {
            Held::Int(n) => Some(n as int),
            _ => None,
        }
    } else {
        None
    }
}

/// Whether `n` fits the year that the calendar takes.
pub open spec fn fits_year(n: int) -> bool {
    i32::MIN <= n <= i32::MAX
}

/// Whether `n` fits a month, day, hour, minute or second that the calendar
/// takes.
pub open spec fn fits_part(n: int) -> bool {
    0 <= n <= u32::MAX
}

/// The instant that the arguments of `date_epoch_secs` (three integers) or of
/// `datetime_epoch_secs` (six integers) name; `None` for anything else and for
/// a date or time that does not exist.
pub open spec fn dated(args: Seq<Held>, with_time: bool) -> Option<int> {
    let want: int = if with_time { 6 } else { 3 };
    if args.len() != want {
        None
    } else if int_at(args, 0) is None || int_at(args, 1) is None || int_at(args, 2) is None {
        None
    } else if with_time && (int_at(args, 3) is None || int_at(args, 4) is None || int_at(args, 5) is None) {
        None
    } else {
        let y = int_at(args, 0)->0;
        let m = int_at(args, 1)->0;
        let d = int_at(args, 2)->0;
        let h = if with_time { int_at(args, 3)->0 } else { 0 };
        let mi = if with_time { int_at(args, 4)->0 } else { 0 };
        let s = if with_time { int_at(args, 5)->0 } else { 0 };
        if fits_year(y) && fits_part(m) && fits_part(d) && fits_part(h) && fits_part(mi) && fits_part(s) {
            clock::utc_epoch_secs(y, m, d, h, mi, s)
        } else {
            None
        }
    }
}

/// The two texts that `args` consists of, if it consists of two texts.
pub open spec fn two_texts(args: Seq<Held>) -> Option<(Seq<char>, Seq<char>)> {
    if args.len() == 2 {
        match (args[0], args[1]) {
            (Held::Text(a), Held::Text(b)) => Some((a, b)),
            _ => None,
        }
    } else {
        None
    }
}

/// What a built-in returns on arguments that hold `args` when it does not
/// read the clock. `None` stands for a failed call: arguments of the wrong
/// number or kind, a pattern that does not compile, or a date or time that
/// does not exist.
pub open spec fn pure_builtin(which: Builtin, args: Seq<Held>) -> Option<Held> {
    match which {
        Builtin::RegexMatch => match two_texts(args) {
            Some((rx, s)) => match regex_whole(rx, s) {
                Some(found) => Some(Held::Boolean(found)),
                None => None,
            },
            None => None,
        },
        Builtin::RegexFind => match two_texts(args) {
            Some((rx, s)) => match regex_search(rx, s) {
                Some(found) => Some(Held::Boolean(found)),
                None => None,
            },
            None => None,
        },
        Builtin::DateEpochSecs => match dated(args, false) {
            Some(secs) => Some(Held::Int(secs as i64)),
            None => None,
        },
        Builtin::DatetimeEpochSecs => match dated(args, true) {
            Some(secs) => Some(Held::Int(secs as i64)),
            None => None,
        },
        _ => None,
    }
}

/// Whether the built-in reads the clock.
pub open spec fn reads_clock(which: Builtin) -> bool {
    match which {
        Builtin::CurrentYear | Builtin::CurrentMonth | Builtin::DayOfMonth
        | Builtin::CurrentOrdinal | Builtin::CurrentWeekday | Builtin::CurrentEpochSecs => true,
        _ => false,
    }
}

/// What every answer of a clock-reading built-in satisfies.
pub open spec fn clock_answer(which: Builtin, v: Held) -> bool {
    match which {
        Builtin::CurrentYear => v is Int,
        Builtin::CurrentMonth => v is Int && 1 <= v->Int_0 <= 12,
        Builtin::DayOfMonth => v is Int && 1 <= v->Int_0 <= 31,
        Builtin::CurrentOrdinal => v is Int && 1 <= v->Int_0 <= 366,
        Builtin::CurrentWeekday => v is Text && clock::is_weekday_name(v->Text_0),
        Builtin::CurrentEpochSecs => v is Int,
        _ => false,
    }
}

fn int_arg(args: &Vec<ValueWrapper>, i: usize) -> (r: Option<i64>)
    ensures
        match r {
            Some(n) => int_at(plains(args@), i as int) == Some(n as int),
            None => int_at(plains(args@), i as int) is None,
        },
{
    if i < args.len() {
        match &args[i] {
            ValueWrapper::Int(n) => Some(*n),
            _ => None,
        }
    } else {
        None
    }
}

fn part(n: i64) -> (r: Option<u32>)
    ensures
        match r {
            Some(p) => fits_part(n as int) && p == n,
            None => !fits_part(n as int),
        },
{
    if 0 <= n && n <= 4294967295 {
        Some(n as u32)
    } else {
        None
    }
}

/// The instant named by the arguments of `date_epoch_secs` or
/// `datetime_epoch_secs`.
fn instant_of(args: &Vec<ValueWrapper>, with_time: bool) -> (r: Option<i64>)
    ensures
        match r {
            Some(secs) => dated(plains(args@), with_time) == Some(secs as int),
            None => dated(plains(args@), with_time) is None,
        },
{
    let want: usize = if with_time { 6 } else { 3 };
    if args.len() != want {
        return None;
    }
    let (y, m, d) = match (int_arg(args, 0), int_arg(args, 1), int_arg(args, 2)) {
        (Some(y), Some(m), Some(d)) => (y, m, d),
        _ => { return None; },
    };
    let (h, mi, s): (i64, i64, i64) = if with_time {
        match (int_arg(args, 3), int_arg(args, 4), int_arg(args, 5)) {
            (Some(h), Some(mi), Some(s)) => (h, mi, s),
            _ => { return None; },
        }
    } else {
        (0, 0, 0)
    };
    if y < -2147483648 || y > 2147483647 {
        return None;
    }
    match (part(m), part(d), part(h), part(mi), part(s)) {
        (Some(m), Some(d), Some(h), Some(mi), Some(s)) => clock::epoch_secs_of(y as i32, m, d, h, mi, s),
        _ => None,
    }
}

fn text_pair(args: &Vec<ValueWrapper>) -> (r: Option<(&str, &str)>)
    ensures
        match r {
            Some((a, b)) => two_texts(plains(args@)) == Some((a@, b@)),
            None => two_texts(plains(args@)) is None,
        },
{
    if args.len() == 2 {
        match (&args[0], &args[1]) {
            (ValueWrapper::String(a), ValueWrapper::String(b)) => Some((a.as_str(), b.as_str())),
            _ => None,
        }
    } else {
        None
    }
}

/// Calls a built-in on arguments given as plain values.
///
/// A built-in that does not read the clock returns exactly what `pure_builtin`
/// says, and fails with an `Evaluation` error where that is `None`. One that
/// reads the clock ignores its arguments and always answers.
pub fn call_builtin(which: Builtin, args: &Vec<ValueWrapper>) -> (r: Result<ValueWrapper, RbacError>)
    ensures
        !reads_clock(which) ==> match r {
            Ok(v) => pure_builtin(which, plains(args@)) == Some(plain(v)),
            Err(e) => pure_builtin(which, plains(args@)) is None && e is Evaluation,
        },
        reads_clock(which) ==> r is Ok && clock_answer(which, plain(r->Ok_0)),
{
    match which {
        Builtin::RegexMatch => match text_pair(args) {
            Some((rx, s)) => match try_regex_match(rx, s) {
                Some(found) => Ok(ValueWrapper::Bool(found)),
                None => Err(RbacError::Evaluation("regex_match was given a pattern that does not compile".to_string())),
            },
            None => Err(RbacError::Evaluation("regex_match expects two strings".to_string())),
        },
        Builtin::RegexFind => match text_pair(args) {
            Some((rx, s)) => match try_regex_find(rx, s) {
                Some(found) => Ok(ValueWrapper::Bool(found)),
                None => Err(RbacError::Evaluation("regex_find was given a pattern that does not compile".to_string())),
            },
            None => Err(RbacError::Evaluation("regex_find expects two strings".to_string())),
        },
        Builtin::CurrentYear => Ok(ValueWrapper::Int(clock::today().year)),
        Builtin::CurrentMonth => Ok(ValueWrapper::Int(clock::today().month)),
        Builtin::DayOfMonth => Ok(ValueWrapper::Int(clock::today().day)),
        Builtin::CurrentOrdinal => Ok(ValueWrapper::Int(clock::today().ordinal)),
        Builtin::CurrentWeekday => Ok(ValueWrapper::String(clock::today().weekday)),
        Builtin::CurrentEpochSecs => Ok(ValueWrapper::Int(clock::today().epoch_secs)),
        Builtin::DateEpochSecs => match instant_of(args, false) {
            Some(secs) => Ok(ValueWrapper::Int(secs)),
            None => Err(
                RbacError::Evaluation("date_epoch_secs expects the year, month and day of a date".to_string()),
            ),
        },
        Builtin::DatetimeEpochSecs => match instant_of(args, true) {
            Some(secs) => Ok(ValueWrapper::Int(secs)),
            None => Err(
                RbacError::Evaluation(
                    "datetime_epoch_secs expects the year, month, day, hour, minute and second of an instant".to_string(),
                ),
            ),
        },
    }
}

/// Whether a value that holds `h` can stand in an argument list: it is
/// neither a tuple nor empty.
pub open spec fn is_plain(h: Held) -> bool {
    !(h is Tuple) && !(h is Empty)
}

/// The argument list that a built-in is called with when `evalexpr` hands it a
/// value that holds `h`: nothing for an empty value, the items of a tuple, or
/// the single value itself. A tuple with an item that is no plain value gives
/// no argument list.
pub open spec fn arguments(h: Held) -> Option<Seq<Held>> {
    match h {
        Held::Empty => Some(Seq::empty()),
        Held::Tuple(items) => if forall|i: int| 0 <= i < items.len() ==> is_plain(#[trigger] held(items[i])) {
            Some(items.map_values(|v: Value| held(v)))
        } else {
            None
        },
        _ => Some(seq![h]),
    }
}

/// What `apply_builtin` owes on a value that holds `h`: an error where `h`
/// gives no argument list or the built-in fails on it, else a value that holds
/// the built-in's answer; a built-in that reads the clock always answers.
pub open spec fn applied(which: Builtin, h: Held, r: Result<Value, EvalexprError>) -> bool {
    match arguments(h) {
        None => r is Err,
        Some(args) => if reads_clock(which) {
            r is Ok && clock_answer(which, held(r->Ok_0))
        } else {
            match r {
                Ok(v) => pure_builtin(which, args) == Some(held(v)),
                Err(_) => pure_builtin(which, args) is None,
            }
        },
    }
}

/// The plain value that an argument of a call stands for; a tuple or an empty
/// value inside an argument list stands for none.
fn plain_of(value: &Value) -> (r: Option<ValueWrapper>)
    ensures
        match r {
            Some(w) => plain(w) == held(*value),
            None => !is_plain(held(*value)),
        },
{
    match decode(value) {
        Decoded::Text(s) => Some(ValueWrapper::String(s)),
        Decoded::Float(bits) => Some(ValueWrapper::Float(bits)),
        Decoded::Int(i) => Some(ValueWrapper::Int(i)),
        Decoded::Boolean(b) => Some(ValueWrapper::Bool(b)),
        Decoded::Tuple(_) => None,
        Decoded::Empty => None,
    }
}

/// The argument list that `evalexpr` hands to a function: nothing for an empty
/// value, the items of a tuple, or the single value itself.
fn arguments_of(arg: &Value) -> (r: Option<Vec<ValueWrapper>>)
    ensures
        match r {
            Some(args) => arguments(held(*arg)) == Some(plains(args@)),
            None => arguments(held(*arg)) is None,
        },
{
    let mut args: Vec<ValueWrapper> = Vec::new();
    match decode(arg) {
        Decoded::Empty => {},
        Decoded::Tuple(items) => {
            let mut i: usize = 0;
            while i < items.len()
                invariant
                    i <= items.len(),
                    held(*arg) == Held::Tuple(items@),
                    args@.len() == i,
                    forall|j: int| 0 <= j < i ==> is_plain(#[trigger] held(items@[j])),
                    forall|j: int| 0 <= j < i ==> plain(#[trigger] args@[j]) == held(items@[j]),
                decreases items.len() - i,
            {
                match plain_of(&items[i]) {
                    Some(v) => args.push(v),
                    None => {
                        assert(!is_plain(held(items@[i as int])));
                        return None;
                    },
                }
                i += 1;
            }
            assert(plains(args@) =~= items@.map_values(|v: Value| held(v)));
        },
        Decoded::Text(s) => args.push(ValueWrapper::String(s)),
        Decoded::Float(bits) => args.push(ValueWrapper::Float(bits)),
        Decoded::Int(i) => args.push(ValueWrapper::Int(i)),
        Decoded::Boolean(b) => args.push(ValueWrapper::Bool(b)),
    }
    assert(arguments(held(*arg))->0 =~= plains(args@));
    Some(args)
}

/// What `evalexpr` runs when an expression calls a built-in: the arguments are
/// taken apart, `call_builtin` computes, and the answer is handed back in
/// `evalexpr`'s own types.
fn apply_builtin(which: Builtin, arg: &Value) -> (r: Result<Value, EvalexprError>)
    ensures
        applied(which, held(*arg), r),
{
    match arguments_of(arg) {
        Some(args) => match call_builtin(which, &args) {
            Ok(v) => Ok(to_value(&v)),
            Err(e) => Err(custom_error(e.to_string())),
        },
        None => Err(custom_error("a built-in function takes plain values only".to_string())),
    }
}

/// The name under which an expression calls a built-in.
pub fn name_of(which: Builtin) -> (name: &'static str)
    ensures
        name@ == builtin_name(which),
{
    match which {
        Builtin::RegexMatch => "regex_match",
        Builtin::RegexFind => "regex_find",
        Builtin::CurrentYear => "current_year",
        Builtin::CurrentMonth => "current_month",
        Builtin::DayOfMonth => "day_of_month",
        Builtin::CurrentOrdinal => "current_ordinal",
        Builtin::CurrentWeekday => "current_weekday",
        Builtin::CurrentEpochSecs => "current_epoch_secs",
        Builtin::DateEpochSecs => "date_epoch_secs",
        Builtin::DatetimeEpochSecs => "datetime_epoch_secs",
    }
}

/// The built-ins that a context offers once `which` has been put under its
/// name.
pub open spec fn offered(m: Map<Seq<char>, Builtin>, which: Builtin) -> Map<Seq<char>, Builtin> {
    m.insert(builtin_name(which), which)
}

/// The built-ins that a context offers once every built-in has been put under
/// its name.
pub open spec fn all_offered(m: Map<Seq<char>, Builtin>) -> Map<Seq<char>, Builtin> {
    let a = offered(offered(offered(m, Builtin::RegexMatch), Builtin::RegexFind), Builtin::CurrentYear);
    let b = offered(offered(offered(a, Builtin::CurrentMonth), Builtin::DayOfMonth), Builtin::CurrentOrdinal);
    let c = offered(offered(offered(b, Builtin::CurrentWeekday), Builtin::CurrentEpochSecs), Builtin::DateEpochSecs);
    offered(c, Builtin::DatetimeEpochSecs)
}

/// No two built-ins go by one name.
pub proof fn lemma_names_differ(a: Builtin, b: Builtin)
    requires
        a != b,
    ensures
        builtin_name(a) != builtin_name(b),
{
    reveal_strlit("regex_match");
    reveal_strlit("regex_find");
    reveal_strlit("current_year");
    reveal_strlit("current_month");
    reveal_strlit("day_of_month");
    reveal_strlit("current_ordinal");
    reveal_strlit("current_weekday");
    reveal_strlit("current_epoch_secs");
    reveal_strlit("date_epoch_secs");
    reveal_strlit("datetime_epoch_secs");
    assert("regex_match"@.len() == 11);
    assert("regex_find"@.len() == 10);
    assert("current_year"@.len() == 12);
    assert("current_month"@.len() == 13);
    assert("day_of_month"@.len() == 12);
    assert("current_ordinal"@.len() == 15);
    assert("current_weekday"@.len() == 15);
    assert("current_epoch_secs"@.len() == 18);
    assert("date_epoch_secs"@.len() == 15);
    assert("datetime_epoch_secs"@.len() == 19);
    assert("current_year"@[0] != "day_of_month"@[0]);
    assert("current_ordinal"@[8] != "current_weekday"@[8]);
    assert("current_ordinal"@[0] != "date_epoch_secs"@[0]);
    assert("current_weekday"@[0] != "date_epoch_secs"@[0]);
}

/// Once every built-in has been offered, an expression that calls one by its
/// name reaches that built-in, whatever stood under the name before.
pub proof fn lemma_every_builtin_is_offered(m: Map<Seq<char>, Builtin>, which: Builtin)
    ensures
        all_offered(m).contains_key(builtin_name(which)),
        all_offered(m)[builtin_name(which)] == which,
{
    assert forall|other: Builtin| other != which implies builtin_name(other) != builtin_name(which) by {
        lemma_names_differ(other, which);
    }
}

/// Offering the built-ins leaves every other name as it was.
pub proof fn lemma_other_names_stay(m: Map<Seq<char>, Builtin>, name: Seq<char>)
    requires
        forall|which: Builtin| builtin_name(which) != name,
    ensures
        all_offered(m).contains_key(name) == m.contains_key(name),
        m.contains_key(name) ==> all_offered(m)[name] == m[name],
{
    assert(builtin_name(Builtin::RegexMatch) != name);
    assert(builtin_name(Builtin::RegexFind) != name);
    assert(builtin_name(Builtin::CurrentYear) != name);
    assert(builtin_name(Builtin::CurrentMonth) != name);
    assert(builtin_name(Builtin::DayOfMonth) != name);
    assert(builtin_name(Builtin::CurrentOrdinal) != name);
    assert(builtin_name(Builtin::CurrentWeekday) != name);
    assert(builtin_name(Builtin::CurrentEpochSecs) != name);
    assert(builtin_name(Builtin::DateEpochSecs) != name);
    assert(builtin_name(Builtin::DatetimeEpochSecs) != name);
}

/// Offers `which` in `ctx` under its name. This cannot fail.
fn offer(ctx: &mut HashMapContext, which: Builtin) -> (r: Result<(), EvalexprError>)
    ensures
        r is Ok,
        builtins(*final(ctx)) == offered(builtins(*old(ctx)), which),
        variables(*final(ctx)) == variables(*old(ctx)),
{
    register(ctx, name_of(which), which)
}

/// Offers every built-in in `ctx` under its name, in place of whatever stood
/// under those names. This cannot fail, and the variables stay as they were.
fn add_builtin(ctx: &mut HashMapContext) -> (r: Result<(), EvalexprError>)
    ensures
        r is Ok,
        builtins(*final(ctx)) == all_offered(builtins(*old(ctx))),
        variables(*final(ctx)) == variables(*old(ctx)),
{
    offer(ctx, Builtin::RegexMatch)?;
    offer(ctx, Builtin::RegexFind)?;
    offer(ctx, Builtin::CurrentYear)?;
    offer(ctx, Builtin::CurrentMonth)?;
    offer(ctx, Builtin::DayOfMonth)?;
    offer(ctx, Builtin::CurrentOrdinal)?;
    offer(ctx, Builtin::CurrentWeekday)?;
    offer(ctx, Builtin::CurrentEpochSecs)?;
    offer(ctx, Builtin::DateEpochSecs)?;
    offer(ctx, Builtin::DatetimeEpochSecs)?;
    Ok(())
}

/// The message of the error that `verdict` gives for an outcome that is no
/// boolean.
pub open spec fn verdict_message(outcome: Evaluated, expr: Seq<char>) -> Seq<char> {
    match outcome {
        Evaluated::Boolean(_) => Seq::empty(),
        Evaluated::Int(_) => "Invalid int expression, only boolean results are supported '"@ + expr + "'"@,
        Evaluated::Float(_) => "Invalid float expression, only boolean results are supported '"@ + expr + "'"@,
        Evaluated::Text(s) => "Invalid string expression "@ + s@ + ", only boolean results are supported '"@
            + expr + "'"@,
        Evaluated::Tuple => "Invalid expression, only boolean results are supported '"@ + expr + "'"@,
        Evaluated::Empty => "Invalid empty expression, only boolean results are supported '"@ + expr + "'"@,
        Evaluated::Failed(why) => "Invalid expression, only boolean results are supported '"@ + expr
            + "' --- "@ + why@,
    }
}

/// Whether `r` is the answer that a constraint gives on the outcome of its
/// evaluation: a boolean outcome is the answer, every other outcome is an
/// `Evaluation` error with the message of that outcome.
pub open spec fn answers(r: Result<bool, RbacError>, outcome: Evaluated, expr: Seq<char>) -> bool {
    match r {
        Ok(b) => outcome == Evaluated::Boolean(b),
        Err(e) => !(outcome is Boolean) && e is Evaluation && e.message() == verdict_message(outcome, expr),
    }
}

/// The answer that a constraint gives once it has been evaluated: a boolean
/// outcome is the answer, every other outcome is an `Evaluation` error.
pub fn verdict(outcome: &Evaluated, expr: &str) -> (r: Result<bool, RbacError>)
    ensures
        answers(r, *outcome, expr@),
{
    match outcome {
        Evaluated::Boolean(b) => Ok(*b),
        Evaluated::Int(_) => Err(
            RbacError::Evaluation(
                String::from_str("Invalid int expression, only boolean results are supported '").concat(
                    expr,
                ).concat("'"),
            ),
        ),
        Evaluated::Float(_) => Err(
            RbacError::Evaluation(
                String::from_str("Invalid float expression, only boolean results are supported '").concat(
                    expr,
                ).concat("'"),
            ),
        ),
        Evaluated::Text(s) => Err(
            RbacError::Evaluation(
                String::from_str("Invalid string expression ").concat(s.as_str()).concat(
                    ", only boolean results are supported '",
                ).concat(expr).concat("'"),
            ),
        ),
        Evaluated::Tuple => Err(
            RbacError::Evaluation(
                String::from_str("Invalid expression, only boolean results are supported '").concat(
                    expr,
                ).concat("'"),
            ),
        ),
        Evaluated::Empty => Err(
            RbacError::Evaluation(
                String::from_str("Invalid empty expression, only boolean results are supported '").concat(
                    expr,
                ).concat("'"),
            ),
        ),
        Evaluated::Failed(why) => Err(
            RbacError::Evaluation(
                String::from_str("Invalid expression, only boolean results are supported '").concat(
                    expr,
                ).concat("' --- ").concat(why.as_str()),
            ),
        ),
    }
}

/// Whether `r` says as plain data what an evaluation returned: what the value
/// holds, without the items of a tuple, or the printed error.
pub open spec fn reports(r: Evaluated, result: Result<Value, EvalexprError>) -> bool {
    match result {
        Ok(value) => match held(value) {
            Held::Boolean(b) => r == Evaluated::Boolean(b),
            Held::Int(i) => r == Evaluated::Int(i),
            Held::Float(bits) => r == Evaluated::Float(bits),
            Held::Text(text) => r is Text && r->Text_0@ == text,
            Held::Tuple(_) => r is Tuple,
            Held::Empty => r is Empty,
        },
        Err(e) => r is Failed && r->Failed_0@ == printed(e),
    }
}

/// What `evalexpr` returned, as plain data.
fn outcome_of(result: Result<Value, EvalexprError>) -> (r: Evaluated)
    ensures
        reports(r, result),
{
    match result {
        Ok(value) => match decode(&value) {
            Decoded::Boolean(b) => Evaluated::Boolean(b),
            Decoded::Int(i) => Evaluated::Int(i),
            Decoded::Float(bits) => Evaluated::Float(bits),
            Decoded::Text(s) => Evaluated::Text(s),
            Decoded::Tuple(_) => Evaluated::Tuple,
            Decoded::Empty => Evaluated::Empty,
        },
        Err(e) => Evaluated::Failed(error_text(&e)),
    }
}

/// The variables of a context once `properties` have been bound in it one
/// after the other, starting from `vars`; `None` where one of them is refused,
/// which is where its name is bound to a value of another kind by then.
pub open spec fn bound(vars: Map<Seq<char>, Held>, properties: Seq<Property>) -> Option<Map<Seq<char>, Held>>
    decreases properties.len(),
{
    if properties.len() == 0 {
        Some(vars)
    } else {
        match bound(vars, properties.drop_last()) {
            Some(m) => {
                let p = properties.last();
                if accepts(m, p.name@, plain(p.value)) {
                    Some(m.insert(p.name@, plain(p.value)))
                } else {
                    None
                }
            },
            None => None,
        }
    }
}

/// Once a value has been refused, the values after it do not mend that.
pub proof fn lemma_refused_stays(vars: Map<Seq<char>, Held>, properties: Seq<Property>, k: int)
    requires
        0 <= k <= properties.len(),
        bound(vars, properties.take(k)) is None,
    ensures
        bound(vars, properties) is None,
    decreases properties.len(),
{
    if k == properties.len() {
        assert(properties.take(k) =~= properties);
    } else {
        assert(properties.drop_last().take(k) =~= properties.take(k));
        lemma_refused_stays(vars, properties.drop_last(), k);
    }
}

/// The context in which a constraint is evaluated: a copy of `base` in which
/// the context values are bound one after the other, every built-in is
/// offered under its name, and `evalexpr`'s own functions are switched off.
/// It fails where a value cannot be bound.
fn context_for(properties: &Vec<Property>, base: &HashMapContext) -> (r: Result<HashMapContext, EvalexprError>)
    ensures
        match r {
            Ok(ctx) => bound(variables(*base), properties@) == Some(variables(ctx))
                && builtins(ctx) == all_offered(builtins(*base))
                && guarded(ctx),
            Err(_) => bound(variables(*base), properties@) is None,
        },
{
    let mut ctx = clone_context(base);
    let mut i: usize = 0;
    while i < properties.len()
        invariant
            i <= properties.len(),
            bound(variables(*base), properties@.take(i as int)) == Some(variables(ctx)),
            builtins(ctx) == builtins(*base),
        decreases properties.len() - i,
    {
        proof {
            assert(properties@.take(i + 1).drop_last() =~= properties@.take(i as int));
            assert(properties@.take(i + 1).last() == properties@[i as int]);
        }
        match set_value(&mut ctx, properties[i].name.as_str(), to_value(&properties[i].value)) {
            Ok(_) => {},
            Err(e) => {
                proof {
                    lemma_refused_stays(variables(*base), properties@, i + 1);
                }
                return Err(e);
            },
        }
        i += 1;
    }
    proof {
        assert(properties@.take(i as int) =~= properties@);
    }
    match add_builtin(&mut ctx) {
        Ok(_) => {},
        Err(e) => { return Err(e); },
    }
    match switch_off_own_functions(&mut ctx) {
        Ok(_) => Ok(ctx),
        Err(e) => Err(e),
    }
}

/// Evaluates `expr` in the context that `context_for` makes of `base` and the
/// context values, and reports what came out as plain data. Where a value
/// cannot be bound nothing is evaluated, and the outcome is a failed one. What
/// the evaluation itself comes to depends on the functions of the context and,
/// through them, on the clock.
fn evaluate_in(expr: &str, properties: &Vec<Property>, base: &HashMapContext) -> (r: Evaluated)
    ensures
        bound(variables(*base), properties@) is None ==> r is Failed,
{
    match context_for(properties, base) {
        Ok(ctx) => outcome_of(eval_in(expr, &ctx)),
        Err(e) => Evaluated::Failed(error_text(&e)),
    }
}

/// Whether `r` is what the evaluation of `expr` may give when the context
/// starts with the variables `vars`: the answer on some outcome, and on a
/// failed one where the context values cannot all be bound.
pub open spec fn evaluated(
    r: Result<bool, RbacError>,
    expr: Seq<char>,
    properties: Seq<Property>,
    vars: Map<Seq<char>, Held>,
) -> bool {
    exists|outcome: Evaluated| #[trigger]
        answers(r, outcome, expr) && (bound(vars, properties) is None ==> outcome is Failed)
}

/// Evaluates a boolean expression against the context values, with the
/// built-ins and whatever functions `base` brings; the functions that
/// `evalexpr` offers of itself are switched off, so an expression that calls
/// one fails. The outcome depends on the clock and on the functions of `base`,
/// which are the caller's and have to return on every argument. Whatever the
/// outcome is, a boolean one is the answer and any other is an error of kind
/// `Evaluation`; context values that cannot all be bound give such an error
/// without an evaluation.
pub fn evaluate_with(expr: &str, properties: &Vec<Property>, base: &HashMapContext) -> (r: Result<bool, RbacError>)
    ensures
        evaluated(r, expr@, properties@, variables(*base)),
        r is Err ==> r->Err_0 is Evaluation,
        bound(variables(*base), properties@) is None ==> r is Err,
{
    let outcome = evaluate_in(expr, properties, base);
    let r = verdict(&outcome, expr);
    proof {
        assert(answers(r, outcome, expr@));
    }
    r
}

/// Evaluates a boolean expression against the context values with the
/// built-ins alone: the context starts without variables.
pub fn evaluate(expr: &str, properties: &Vec<Property>) -> (r: Result<bool, RbacError>)
    ensures
        evaluated(r, expr@, properties@, no_variables()),
        r is Err ==> r->Err_0 is Evaluation,
        bound(no_variables(), properties@) is None ==> r is Err,
{
    let base = new_context();
    evaluate_with(expr, properties, &base)
}

} // verus!
