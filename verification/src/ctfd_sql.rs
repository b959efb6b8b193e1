//! The SQL the monitor writes to CTFd's database: which columns a new
//! challenge fills and with what, which columns an update sets, the rows of
//! the dynamic-scoring and instance tables, all adapted to the schema that
//! was probed.
use vstd::prelude::*;
use crate::models::{opt_str, strs};
use crate::probe::ChallengesSchema;
use crate::report::{join_with, push_joined};
use crate::text::eq_str;

verus! {

/// The fields of a challenge's JSON body that the database writes read.
/// A field holds a value only where the body has one of the right kind (a
/// string, an integer); `requirements` holds the JSON text of the
/// requirements when they are an object.
pub struct ChallengeBody {
    pub name: Option<String>,
    pub category: Option<String>,
    pub description: Option<String>,
    pub value: Option<i64>,
    pub type_: Option<String>,
    pub state: Option<String>,
    pub max_attempts: Option<i64>,
    pub attempts: Option<i64>,
    pub connection_info: Option<String>,
    pub requirements: Option<String>,
    pub next_id: Option<i64>,
    pub logic: Option<String>,
    pub attribution: Option<String>,
    pub initial: Option<i64>,
    pub minimum: Option<i64>,
    pub decay: Option<i64>,
    pub function: Option<String>,
    pub initial_value: Option<i64>,
    pub minimum_value: Option<i64>,
    pub decay_value: Option<i64>,
    pub decay_function: Option<String>,
    pub backend: Option<String>,
    pub image: Option<String>,
    pub command: Option<String>,
    pub compose_file: Option<String>,
    pub compose_service: Option<String>,
    pub lxc_image: Option<String>,
    pub vagrantfile: Option<String>,
    pub internal_port: Option<i64>,
    pub connection: Option<String>,
    pub timeout_minutes: Option<i64>,
    pub max_renewals: Option<i64>,
    pub flag_mode: Option<String>,
    pub flag_prefix: Option<String>,
    pub flag_suffix: Option<String>,
    pub random_flag_length: Option<i64>,
}

/// A value bound to a statement's placeholder.
#[derive(Debug, PartialEq, Eq)]
pub enum SqlValue {
    Null,
    Text(String),
    Int(i64),
}

/// A bound value as (kind, text, integer): kind 0 for NULL, 1 for text,
/// 2 for an integer.
pub open spec fn sql_view(v: SqlValue) -> (int, Seq<char>, int) {
    match v {
        SqlValue::Null => (0, seq![], 0),
        SqlValue::Text(s) => (1, s@, 0),
        SqlValue::Int(n) => (2, seq![], n as int),
    }
}

pub open spec fn sql_views(v: Seq<SqlValue>) -> Seq<(int, Seq<char>, int)> {
    v.map_values(|x: SqlValue| sql_view(x))
}

pub open spec fn text_v(s: Seq<char>) -> (int, Seq<char>, int) {
    (1, s, 0)
}

pub open spec fn int_v(n: int) -> (int, Seq<char>, int) {
    (2, seq![], n)
}

pub open spec fn opt_text_v(o: Option<Seq<char>>) -> (int, Seq<char>, int) {
    match o {
        Some(s) => text_v(s),
        None => (0, seq![], 0),
    }
}

pub open spec fn opt_int_v(o: Option<i64>) -> (int, Seq<char>, int) {
    match o {
        Some(n) => int_v(n as int),
        None => (0, seq![], 0),
    }
}

/// The text of `o`, or `d`.
pub open spec fn str_or(o: Option<String>, d: Seq<char>) -> Seq<char> {
    match o {
        Some(s) => s@,
        None => d,
    }
}

/// `a`, or else `b`.
pub open spec fn either<T>(a: Option<T>, b: Option<T>) -> Option<T> {
    match a {
        Some(x) => Some(x),
        None => b,
    }
}

/// `o`, or `d`.
pub open spec fn int_or(o: Option<i64>, d: int) -> int {
    match o {
        Some(n) => n as int,
        None => d,
    }
}

/// Dynamic and instance challenges carry scoring parameters.
pub open spec fn scored_type(t: Seq<char>) -> bool {
    t == "dynamic"@ || t == "instance"@
}

/// A new challenge's row, its body's fields with their defaults.
pub struct NewChallengeRow {
    pub name: String,
    pub category: String,
    pub description: Option<String>,
    pub value: i64,
    pub type_: String,
    pub state: String,
    pub max_attempts: i64,
    pub connection_info: Option<String>,
    pub requirements: Option<String>,
    pub next_id: Option<i64>,
    pub logic: String,
    pub scored: bool,
    pub initial: Option<i64>,
    pub minimum: Option<i64>,
    pub decay: Option<i64>,
    pub function: Option<String>,
}

/// `r` is the row of a new challenge with body `b`: an empty name and
/// category, value 0, type `standard`, state `hidden`, no attempt limit
/// (`max_attempts`, else `attempts`, else 0) unless given, and scoring
/// parameters (each named directly or with `_value`, the decay function
/// also as `decay_function`) only for dynamic and instance challenges.
pub open spec fn new_row_of(b: ChallengeBody, r: NewChallengeRow) -> bool {
    let scored = scored_type(str_or(b.type_, "standard"@));
    &&& r.name@ == str_or(b.name, seq![])
    &&& r.category@ == str_or(b.category, seq![])
    &&& opt_str(r.description) == opt_str(b.description)
    &&& r.value as int == int_or(b.value, 0)
    &&& r.type_@ == str_or(b.type_, "standard"@)
    &&& r.state@ == str_or(b.state, "hidden"@)
    &&& r.max_attempts as int == int_or(either(b.max_attempts, b.attempts), 0)
    &&& opt_str(r.connection_info) == opt_str(b.connection_info)
    &&& opt_str(r.requirements) == opt_str(b.requirements)
    &&& r.next_id == b.next_id
    &&& r.logic@ == str_or(b.logic, seq![])
    &&& r.scored == scored
    &&& r.initial == (if scored { either(b.initial, b.initial_value) } else { None })
    &&& r.minimum == (if scored { either(b.minimum, b.minimum_value) } else { None })
    &&& r.decay == (if scored { either(b.decay, b.decay_value) } else { None })
    &&& opt_str(r.function) == (if scored { either(opt_str(b.function), opt_str(b.decay_function)) } else { None })
}

fn copy_opt(o: &Option<String>) -> (r: Option<String>)
    ensures
        opt_str(r) == opt_str(*o),
{
    match o {
        Some(s) => Some(s.clone()),
        None => None,
    }
}

fn text_or(o: &Option<String>, d: &str) -> (r: String)
    ensures
        r@ == str_or(*o, d@),
{
    match o {
        Some(s) => s.clone(),
        None => String::from_str(d),
    }
}

/// Whether challenges of type `t` carry scoring parameters.
pub fn is_scored_type(t: &str) -> (r: bool)
    ensures
        r == scored_type(t@),
{
    eq_str(t, "dynamic") || eq_str(t, "instance")
}

/// The row a challenge created from body `b` gets.
pub fn new_challenge_row(b: &ChallengeBody) -> (r: NewChallengeRow)
    ensures
        new_row_of(*b, r),
{
    proof {
        reveal_strlit("");
        assert(""@ =~= seq![]);
    }
    let type_ = text_or(&b.type_, "standard");
    let scored = is_scored_type(type_.as_str());
    let max_attempts: i64 = match b.max_attempts {
        Some(n) => n,
        None => match b.attempts {
            Some(n) => n,
            None => 0,
        },
    };
    let (initial, minimum, decay, function) = if scored {
        (
            match b.initial { Some(n) => Some(n), None => b.initial_value },
            match b.minimum { Some(n) => Some(n), None => b.minimum_value },
            match b.decay { Some(n) => Some(n), None => b.decay_value },
            match &b.function { Some(f) => Some(f.clone()), None => copy_opt(&b.decay_function) },
        )
    } else {
        (None, None, None, None)
    };
    NewChallengeRow {
        name: text_or(&b.name, ""),
        category: text_or(&b.category, ""),
        description: copy_opt(&b.description),
        value: match b.value { Some(v) => v, None => 0 },
        type_,
        state: text_or(&b.state, "hidden"),
        max_attempts,
        connection_info: copy_opt(&b.connection_info),
        requirements: copy_opt(&b.requirements),
        next_id: b.next_id,
        logic: text_or(&b.logic, ""),
        scored,
        initial,
        minimum,
        decay,
        function,
    }
}

/// The columns an insert into `challenges` fills: the nine every CTFd has,
/// `next_id` and `logic` where the schema has them, and the four inline
/// scoring columns for a scored challenge where the schema has those.
pub open spec fn insert_columns_of(schema: ChallengesSchema, scored: bool) -> Seq<Seq<char>> {
    seq!["name"@, "category"@, "description"@, "value"@, "`type`"@, "state"@,
        "max_attempts"@, "connection_info"@, "requirements"@]
        + (if schema.has_next_id { seq!["next_id"@] } else { seq![] })
        + (if schema.has_logic { seq!["logic"@] } else { seq![] })
        + (if schema.dynamic_in_challenges && scored {
            seq!["initial"@, "minimum"@, "decay"@, "`function`"@]
        } else {
            seq![]
        })
}

/// The values bound to those columns, in the same order.
pub open spec fn insert_params_of(schema: ChallengesSchema, r: NewChallengeRow) -> Seq<(int, Seq<char>, int)> {
    seq![text_v(r.name@), text_v(r.category@), opt_text_v(opt_str(r.description)), int_v(r.value as int),
        text_v(r.type_@), text_v(r.state@), int_v(r.max_attempts as int),
        opt_text_v(opt_str(r.connection_info)), opt_text_v(opt_str(r.requirements))]
        + (if schema.has_next_id { seq![opt_int_v(r.next_id)] } else { seq![] })
        + (if schema.has_logic { seq![text_v(r.logic@)] } else { seq![] })
        + (if schema.dynamic_in_challenges && r.scored {
            seq![opt_int_v(r.initial), opt_int_v(r.minimum), opt_int_v(r.decay), opt_text_v(opt_str(r.function))]
        } else {
            seq![]
        })
}

fn push_str(v: &mut Vec<String>, s: &str)
    ensures
        strs(final(v)@) == strs(old(v)@).push(s@),
{
    v.push(String::from_str(s));
    assert(strs(v@) =~= strs(old(v)@).push(s@));
}

/// The columns of an insert into `challenges` under `schema`.
pub fn insert_columns(schema: &ChallengesSchema, scored: bool) -> (r: Vec<String>)
    ensures
        strs(r@) == insert_columns_of(*schema, scored),
{
    let mut cols: Vec<String> = Vec::new();
    push_str(&mut cols, "name");
    push_str(&mut cols, "category");
    push_str(&mut cols, "description");
    push_str(&mut cols, "value");
    push_str(&mut cols, "`type`");
    push_str(&mut cols, "state");
    push_str(&mut cols, "max_attempts");
    push_str(&mut cols, "connection_info");
    push_str(&mut cols, "requirements");
    let ghost base = strs(cols@);
    if schema.has_next_id {
        push_str(&mut cols, "next_id");
    }
    let ghost with_next = strs(cols@);
    if schema.has_logic {
        push_str(&mut cols, "logic");
    }
    let ghost with_logic = strs(cols@);
    if schema.dynamic_in_challenges && scored {
        push_str(&mut cols, "initial");
        push_str(&mut cols, "minimum");
        push_str(&mut cols, "decay");
        push_str(&mut cols, "`function`");
    }
    assert(strs(cols@) =~= insert_columns_of(*schema, scored));
    cols
}

fn copy_opt_value(o: &Option<String>) -> (r: SqlValue)
    ensures
        sql_view(r) == opt_text_v(opt_str(*o)),
{
    match o {
        Some(s) => SqlValue::Text(s.clone()),
        None => SqlValue::Null,
    }
}

fn opt_int_value(o: Option<i64>) -> (r: SqlValue)
    ensures
        sql_view(r) == opt_int_v(o),
{
    match o {
        Some(n) => SqlValue::Int(n),
        None => SqlValue::Null,
    }
}

fn push_value(v: &mut Vec<SqlValue>, x: SqlValue)
    ensures
        sql_views(final(v)@) == sql_views(old(v)@).push(sql_view(x)),
{
    v.push(x);
    assert(sql_views(v@) =~= sql_views(old(v)@).push(sql_view(x)));
}

/// The values of an insert of row `r` into `challenges` under `schema`.
pub fn insert_params(schema: &ChallengesSchema, r: &NewChallengeRow) -> (p: Vec<SqlValue>)
    ensures
        sql_views(p@) == insert_params_of(*schema, *r),
{
    let mut p: Vec<SqlValue> = Vec::new();
    push_value(&mut p, SqlValue::Text(r.name.clone()));
    push_value(&mut p, SqlValue::Text(r.category.clone()));
    push_value(&mut p, copy_opt_value(&r.description));
    push_value(&mut p, SqlValue::Int(r.value));
    push_value(&mut p, SqlValue::Text(r.type_.clone()));
    push_value(&mut p, SqlValue::Text(r.state.clone()));
    push_value(&mut p, SqlValue::Int(r.max_attempts));
    push_value(&mut p, copy_opt_value(&r.connection_info));
    push_value(&mut p, copy_opt_value(&r.requirements));
    if schema.has_next_id {
        push_value(&mut p, opt_int_value(r.next_id));
    }
    if schema.has_logic {
        push_value(&mut p, SqlValue::Text(r.logic.clone()));
    }
    if schema.dynamic_in_challenges && r.scored {
        push_value(&mut p, opt_int_value(r.initial));
        push_value(&mut p, opt_int_value(r.minimum));
        push_value(&mut p, opt_int_value(r.decay));
        push_value(&mut p, copy_opt_value(&r.function));
    }
    assert(sql_views(p@) =~= insert_params_of(*schema, *r));
    p
}

/// `INSERT INTO challenges (<columns>) VALUES (?, ...)`, one placeholder
/// per column.
pub open spec fn insert_statement_of(cols: Seq<Seq<char>>) -> Seq<char> {
    "INSERT INTO challenges ("@ + join_with(cols, ", "@) + ") VALUES ("@
        + join_with(Seq::new(cols.len(), |i: int| "?"@), ", "@) + ")"@
}

/// The insert statement for `columns`.
pub fn insert_statement(columns: &Vec<String>) -> (r: String)
    ensures
        r@ == insert_statement_of(strs(columns@)),
{
    let mut marks: Vec<String> = Vec::new();
    let mut i: usize = 0;
    while i < columns.len()
        invariant
            i <= columns@.len(),
            strs(marks@) == Seq::new(i as nat, |k: int| "?"@),
        decreases columns@.len() - i,
    {
        push_str(&mut marks, "?");
        assert(strs(marks@) =~= Seq::new((i + 1) as nat, |k: int| "?"@));
        i = i + 1;
    }
    let mut out = String::from_str("INSERT INTO challenges (");
    push_joined(&mut out, columns, ", ");
    out.append(") VALUES (");
    push_joined(&mut out, &marks, ", ");
    out.append(")");
    assert(strs(columns@).len() == columns@.len());
    assert(out@ =~= insert_statement_of(strs(columns@)));
    out
}

/// The row a dynamic challenge needs in `dynamic_challenge`.
#[derive(Debug, PartialEq, Eq)]
pub enum DynamicRow {
    /// No row: not a dynamic challenge, or no such table.
    Skip,
    /// A row holding only the id (scoring lives in `challenges`).
    Stub,
    /// A row with the scoring parameters.
    Scored { initial: i64, minimum: i64, decay: i64, function: String },
}

/// `r` is the `dynamic_challenge` row for a challenge of type `t` with the
/// given scoring parameters, the initial value defaulting to `fallback`, the
/// minimum to 1, the decay to 50 and the function to `linear`.
pub open spec fn dynamic_row_is(
    schema: ChallengesSchema,
    t: Seq<char>,
    initial: Option<i64>,
    minimum: Option<i64>,
    decay: Option<i64>,
    function: Option<Seq<char>>,
    fallback: int,
    r: DynamicRow,
) -> bool {
    if t == "dynamic"@ && schema.has_dynamic_table {
        if schema.dynamic_table_has_scoring {
            r matches DynamicRow::Scored { initial: i, minimum: m, decay: d, function: f }
                && i as int == int_or(initial, fallback) && m as int == int_or(minimum, 1)
                && d as int == int_or(decay, 50)
                && f@ == (match function { Some(s) => s, None => "linear"@ })
        } else {
            r is Stub
        }
    } else {
        r is Skip
    }
}

fn dynamic_row(
    schema: &ChallengesSchema,
    t: &str,
    initial: Option<i64>,
    minimum: Option<i64>,
    decay: Option<i64>,
    function: &Option<String>,
    fallback: i64,
) -> (r: DynamicRow)
    ensures
        dynamic_row_is(*schema, t@, initial, minimum, decay, opt_str(*function), fallback as int, r),
{
    if eq_str(t, "dynamic") && schema.has_dynamic_table {
        if schema.dynamic_table_has_scoring {
            DynamicRow::Scored {
                initial: match initial { Some(n) => n, None => fallback },
                minimum: match minimum { Some(n) => n, None => 1 },
                decay: match decay { Some(n) => n, None => 50 },
                function: text_or(function, "linear"),
            }
        } else {
            DynamicRow::Stub
        }
    } else {
        DynamicRow::Skip
    }
}

/// The `dynamic_challenge` row written when row `r` is created: its initial
/// value defaults to the challenge's value.
pub fn dynamic_row_on_create(schema: &ChallengesSchema, r: &NewChallengeRow) -> (d: DynamicRow)
    ensures
        dynamic_row_is(*schema, r.type_@, r.initial, r.minimum, r.decay, opt_str(r.function), r.value as int, d),
{
    dynamic_row(schema, r.type_.as_str(), r.initial, r.minimum, r.decay, &r.function, r.value)
}

/// The `dynamic_challenge` row written (or repaired) when a challenge is
/// updated with body `b`: its initial value defaults to 0.
pub fn dynamic_row_on_update(schema: &ChallengesSchema, b: &ChallengeBody) -> (d: DynamicRow)
    ensures
        dynamic_row_is(*schema, str_or(b.type_, seq![]), b.initial, b.minimum, b.decay, opt_str(b.function), 0, d),
{
    proof {
        reveal_strlit("");
        assert(""@ =~= seq![]);
    }
    let t = text_or(&b.type_, "");
    dynamic_row(schema, t.as_str(), b.initial, b.minimum, b.decay, &b.function, 0)
}

/// One assignment of an update: `<column> = ?` and the value bound.
pub open spec fn text_set(col: Seq<char>, v: Option<String>) -> Seq<(Seq<char>, (int, Seq<char>, int))> {
    match v {
        Some(s) => seq![(col + " = ?"@, text_v(s@))],
        None => seq![],
    }
}

pub open spec fn int_set(col: Seq<char>, v: Option<i64>) -> Seq<(Seq<char>, (int, Seq<char>, int))> {
    match v {
        Some(n) => seq![(col + " = ?"@, int_v(n as int))],
        None => seq![],
    }
}

pub open spec fn when<T>(c: bool, s: Seq<T>) -> Seq<T> {
    if c { s } else { seq![] }
}

/// The assignments of an update with body `b` under `schema`: each field
/// the body has, in a fixed order, the version-dependent columns only where
/// the schema has them.
pub open spec fn update_plan_of(schema: ChallengesSchema, b: ChallengeBody) -> Seq<(Seq<char>, (int, Seq<char>, int))> {
    text_set("name"@, b.name) + text_set("category"@, b.category) + text_set("description"@, b.description)
        + text_set("`type`"@, b.type_) + text_set("state"@, b.state)
        + text_set("connection_info"@, b.connection_info)
        + when(schema.has_logic, text_set("logic"@, b.logic))
        + when(schema.has_attribution, text_set("attribution"@, b.attribution))
        + when(schema.dynamic_in_challenges, text_set("`function`"@, b.function))
        + int_set("value"@, b.value)
        + int_set("max_attempts"@, either(b.max_attempts, b.attempts))
        + when(schema.has_next_id, int_set("next_id"@, b.next_id))
        + text_set("requirements"@, b.requirements)
        + when(schema.dynamic_in_challenges,
            int_set("initial"@, b.initial) + int_set("minimum"@, b.minimum) + int_set("decay"@, b.decay))
}

pub open spec fn plan_views(p: Seq<(String, SqlValue)>) -> Seq<(Seq<char>, (int, Seq<char>, int))> {
    p.map_values(|a: (String, SqlValue)| (a.0@, sql_view(a.1)))
}

fn push_text_set(p: &mut Vec<(String, SqlValue)>, col: &str, v: &Option<String>)
    ensures
        plan_views(final(p)@) == plan_views(old(p)@) + text_set(col@, *v),
{
    match v {
        Some(s) => {
            let mut c = String::from_str(col);
            c.append(" = ?");
            p.push((c, SqlValue::Text(s.clone())));
        },
        None => {},
    }
    assert(plan_views(p@) =~= plan_views(old(p)@) + text_set(col@, *v));
}

fn push_int_set(p: &mut Vec<(String, SqlValue)>, col: &str, v: Option<i64>)
    ensures
        plan_views(final(p)@) == plan_views(old(p)@) + int_set(col@, v),
{
    match v {
        Some(n) => {
            let mut c = String::from_str(col);
            c.append(" = ?");
            p.push((c, SqlValue::Int(n)));
        },
        None => {},
    }
    assert(plan_views(p@) =~= plan_views(old(p)@) + int_set(col@, v));
}

/// The assignments of an update of a challenge with body `b`.
pub fn update_plan(schema: &ChallengesSchema, b: &ChallengeBody) -> (p: Vec<(String, SqlValue)>)
    ensures
        plan_views(p@) == update_plan_of(*schema, *b),
{
    let mut p: Vec<(String, SqlValue)> = Vec::new();
    assert(plan_views(p@) =~= seq![]);
    push_text_set(&mut p, "name", &b.name);
    push_text_set(&mut p, "category", &b.category);
    push_text_set(&mut p, "description", &b.description);
    push_text_set(&mut p, "`type`", &b.type_);
    push_text_set(&mut p, "state", &b.state);
    push_text_set(&mut p, "connection_info", &b.connection_info);
    let ghost p1 = plan_views(p@);
    if schema.has_logic {
        push_text_set(&mut p, "logic", &b.logic);
    }
    let ghost p2 = plan_views(p@);
    assert(p2 =~= p1 + when(schema.has_logic, text_set("logic"@, b.logic)));
    if schema.has_attribution {
        push_text_set(&mut p, "attribution", &b.attribution);
    }
    let ghost p3 = plan_views(p@);
    assert(p3 =~= p2 + when(schema.has_attribution, text_set("attribution"@, b.attribution)));
    if schema.dynamic_in_challenges {
        push_text_set(&mut p, "`function`", &b.function);
    }
    let ghost p4 = plan_views(p@);
    assert(p4 =~= p3 + when(schema.dynamic_in_challenges, text_set("`function`"@, b.function)));
    push_int_set(&mut p, "value", b.value);
    let attempts = match b.max_attempts { Some(n) => Some(n), None => b.attempts };
    push_int_set(&mut p, "max_attempts", attempts);
    let ghost p5 = plan_views(p@);
    if schema.has_next_id {
        push_int_set(&mut p, "next_id", b.next_id);
    }
    let ghost p6 = plan_views(p@);
    assert(p6 =~= p5 + when(schema.has_next_id, int_set("next_id"@, b.next_id)));
    push_text_set(&mut p, "requirements", &b.requirements);
    let ghost p7 = plan_views(p@);
    if schema.dynamic_in_challenges {
        push_int_set(&mut p, "initial", b.initial);
        push_int_set(&mut p, "minimum", b.minimum);
        push_int_set(&mut p, "decay", b.decay);
    }
    assert(plan_views(p@) =~= p7 + when(schema.dynamic_in_challenges,
        int_set("initial"@, b.initial) + int_set("minimum"@, b.minimum) + int_set("decay"@, b.decay)));
    assert(plan_views(p@) =~= update_plan_of(*schema, *b));
    p
}

/// `UPDATE challenges SET <assignments> WHERE id = ?`, none when nothing is
/// assigned.
pub open spec fn update_statement_of(assignments: Seq<Seq<char>>) -> Option<Seq<char>> {
    if assignments.len() == 0 {
        None
    } else {
        Some("UPDATE challenges SET "@ + join_with(assignments, ", "@) + " WHERE id = ?"@)
    }
}

/// The update statement for `plan`.
pub fn update_statement(plan: &Vec<(String, SqlValue)>) -> (r: Option<String>)
    ensures
        match r {
            Some(s) => update_statement_of(plan_views(plan@).map_values(|a: (Seq<char>, (int, Seq<char>, int))| a.0)) == Some(s@),
            None => update_statement_of(plan_views(plan@).map_values(|a: (Seq<char>, (int, Seq<char>, int))| a.0)) is None,
        },
{
    let ghost cols = plan_views(plan@).map_values(|a: (Seq<char>, (int, Seq<char>, int))| a.0);
    if plan.len() == 0 {
        return None;
    }
    let mut names: Vec<String> = Vec::new();
    let mut i: usize = 0;
    while i < plan.len()
        invariant
            i <= plan@.len(),
            cols == plan_views(plan@).map_values(|a: (Seq<char>, (int, Seq<char>, int))| a.0),
            strs(names@) == cols.take(i as int),
        decreases plan@.len() - i,
    {
        let ghost before = strs(names@);
        names.push(plan[i].0.clone());
        assert(cols[i as int] == plan@[i as int].0@);
        assert(strs(names@) =~= before.push(cols[i as int]));
        assert(cols.take(i + 1) =~= cols.take(i as int).push(cols[i as int]));
        i = i + 1;
    }
    let mut out = String::from_str("UPDATE challenges SET ");
    push_joined(&mut out, &names, ", ");
    out.append(" WHERE id = ?");
    assert(cols.take(plan@.len() as int) =~= cols);
    Some(out)
}

/// A created challenge gets an instance row when it is an instance
/// challenge.
pub open spec fn instance_row_on_create(r: NewChallengeRow) -> bool {
    r.type_@ == "instance"@
}

/// An updated challenge gets its instance row written when the body makes
/// it an instance challenge or names a backend.
pub open spec fn instance_row_on_update(b: ChallengeBody) -> bool {
    str_or(b.type_, seq![]) == "instance"@ || b.backend is Some
}

pub fn writes_instance_row_on_create(r: &NewChallengeRow) -> (w: bool)
    ensures
        w == instance_row_on_create(*r),
{
    eq_str(r.type_.as_str(), "instance")
}

pub fn writes_instance_row_on_update(b: &ChallengeBody) -> (w: bool)
    ensures
        w == instance_row_on_update(*b),
{
    proof {
        reveal_strlit("");
        assert(""@ =~= seq![]);
    }
    let t = text_or(&b.type_, "");
    eq_str(t.as_str(), "instance") || b.backend.is_some()
}

/// The values of challenge `id`'s row in the instance table: backend
/// `docker`, compose file `docker-compose.yml`, port 1337, connection `nc`,
/// 45 minutes, 3 renewals, flag mode `static`, random flags of 16
/// characters and empty texts unless the body says otherwise; the scoring
/// parameters under their `_value` names first.
pub open spec fn instance_row_of(id: i64, b: ChallengeBody) -> Seq<(int, Seq<char>, int)> {
    seq![
        int_v(id as int),
        text_v(str_or(b.backend, "docker"@)),
        text_v(str_or(b.image, seq![])),
        text_v(str_or(b.command, seq![])),
        text_v(str_or(b.compose_file, "docker-compose.yml"@)),
        text_v(str_or(b.compose_service, seq![])),
        text_v(str_or(b.lxc_image, seq![])),
        text_v(str_or(b.vagrantfile, seq![])),
        int_v(int_or(b.internal_port, 1337)),
        text_v(str_or(b.connection, "nc"@)),
        int_v(int_or(b.timeout_minutes, 45)),
        int_v(int_or(b.max_renewals, 3)),
        text_v(str_or(b.flag_mode, "static"@)),
        text_v(str_or(b.flag_prefix, seq![])),
        text_v(str_or(b.flag_suffix, seq![])),
        int_v(int_or(b.random_flag_length, 16)),
        opt_int_v(either(b.initial_value, b.initial)),
        opt_int_v(either(b.minimum_value, b.minimum)),
        opt_int_v(either(b.decay_value, b.decay)),
        opt_text_v(either(opt_str(b.decay_function), opt_str(b.function))),
    ]
}

fn int_or_value(o: Option<i64>, d: i64) -> (r: SqlValue)
    ensures
        sql_view(r) == int_v(int_or(o, d as int)),
{
    match o {
        Some(n) => SqlValue::Int(n),
        None => SqlValue::Int(d),
    }
}

fn text_or_value(o: &Option<String>, d: &str) -> (r: SqlValue)
    ensures
        sql_view(r) == text_v(str_or(*o, d@)),
{
    SqlValue::Text(text_or(o, d))
}

/// The values written to challenge `id`'s row in the instance table.
pub fn instance_row(id: i64, b: &ChallengeBody) -> (p: Vec<SqlValue>)
    ensures
        sql_views(p@) == instance_row_of(id, *b),
{
    proof {
        reveal_strlit("");
        assert(""@ =~= seq![]);
    }
    let mut p: Vec<SqlValue> = Vec::new();
    push_value(&mut p, SqlValue::Int(id));
    push_value(&mut p, text_or_value(&b.backend, "docker"));
    push_value(&mut p, text_or_value(&b.image, ""));
    push_value(&mut p, text_or_value(&b.command, ""));
    push_value(&mut p, text_or_value(&b.compose_file, "docker-compose.yml"));
    push_value(&mut p, text_or_value(&b.compose_service, ""));
    push_value(&mut p, text_or_value(&b.lxc_image, ""));
    push_value(&mut p, text_or_value(&b.vagrantfile, ""));
    push_value(&mut p, int_or_value(b.internal_port, 1337));
    push_value(&mut p, text_or_value(&b.connection, "nc"));
    push_value(&mut p, int_or_value(b.timeout_minutes, 45));
    push_value(&mut p, int_or_value(b.max_renewals, 3));
    push_value(&mut p, text_or_value(&b.flag_mode, "static"));
    push_value(&mut p, text_or_value(&b.flag_prefix, ""));
    push_value(&mut p, text_or_value(&b.flag_suffix, ""));
    push_value(&mut p, int_or_value(b.random_flag_length, 16));
    push_value(&mut p, opt_int_value(match b.initial_value { Some(n) => Some(n), None => b.initial }));
    push_value(&mut p, opt_int_value(match b.minimum_value { Some(n) => Some(n), None => b.minimum }));
    push_value(&mut p, opt_int_value(match b.decay_value { Some(n) => Some(n), None => b.decay }));
    push_value(&mut p, match &b.decay_function {
        Some(f) => SqlValue::Text(f.clone()),
        None => copy_opt_value(&b.function),
    });
    let ghost v = sql_views(p@);
    let ghost w = instance_row_of(id, *b);
    assert(v.len() == w.len());
    assert(v[16] == w[16]);
    assert(v[19] == w[19]);
    assert(v =~= w);
    p
}


/// The 19 instance columns the full query selects, each from the instance
/// table when it exists and NULL otherwise.
pub open spec fn instance_columns_of(has_instance: bool) -> Seq<Seq<char>> {
    if has_instance {
        seq!["i.backend"@, "i.image"@, "i.command"@, "i.compose_file"@, "i.compose_service"@,
            "i.lxc_image"@, "i.vagrantfile"@, "i.internal_port"@, "i.connection"@,
            "i.timeout_minutes"@, "i.max_renewals"@, "i.flag_mode"@, "i.flag_prefix"@,
            "i.flag_suffix"@, "i.random_flag_length"@, "i.initial_value"@, "i.minimum_value"@,
            "i.decay_value"@, "i.decay_function"@]
    } else {
        Seq::new(19, |k: int| "NULL"@)
    }
}

/// The first fourteen columns of the full query: ten every CTFd has and
/// four newer ones, NULL where absent.
pub open spec fn head_columns_of(s: ChallengesSchema) -> Seq<Seq<char>> {
    seq!["c.id"@, "c.name"@, "c.description"@, "c.category"@, "c.value"@, "c.`type`"@, "c.state"@,
        "c.max_attempts"@, "c.connection_info"@, "c.requirements"@,
        if s.has_next_id { "c.next_id"@ } else { "NULL"@ },
        if s.has_attribution { "c.attribution"@ } else { "NULL"@ },
        if s.has_logic { "c.logic"@ } else { "NULL"@ },
        if s.has_position { "c.position"@ } else { "NULL"@ }]
}

/// The four scoring columns, from `challenges` (`c`) when they are inline
/// and from `dynamic_challenge` (`d`) otherwise.
pub open spec fn scoring_columns_of(inline: bool) -> Seq<Seq<char>> {
    if inline {
        seq!["c.initial"@, "c.minimum"@, "c.decay"@, "c.`function`"@]
    } else {
        seq!["d.initial"@, "d.minimum"@, "d.decay"@, "d.`function`"@]
    }
}

/// The select list of the full-challenge query.
pub open spec fn select_list_of(has_instance: bool, s: ChallengesSchema) -> Seq<Seq<char>> {
    head_columns_of(s) + scoring_columns_of(s.dynamic_in_challenges) + instance_columns_of(has_instance)
}

/// The full-challenge query: the select list over `challenges`, joined to
/// `dynamic_challenge` when scoring lives there and to the instance table
/// when it exists.
pub open spec fn full_query_of(has_instance: bool, s: ChallengesSchema) -> Seq<char> {
    "SELECT "@ + join_with(select_list_of(has_instance, s), ", "@) + " FROM challenges c "@
        + (if s.dynamic_in_challenges { seq![] } else { "LEFT JOIN dynamic_challenge d ON d.id = c.id"@ })
        + " "@
        + (if has_instance { "LEFT JOIN nervctf_instance_challenge i ON i.id = c.id"@ } else { seq![] })
}

fn head_columns(schema: &ChallengesSchema) -> (r: Vec<String>)
    ensures
        strs(r@) == head_columns_of(*schema),
{
    let mut cols: Vec<String> = Vec::new();
    push_str(&mut cols, "c.id");
    push_str(&mut cols, "c.name");
    push_str(&mut cols, "c.description");
    push_str(&mut cols, "c.category");
    push_str(&mut cols, "c.value");
    push_str(&mut cols, "c.`type`");
    push_str(&mut cols, "c.state");
    push_str(&mut cols, "c.max_attempts");
    push_str(&mut cols, "c.connection_info");
    push_str(&mut cols, "c.requirements");
    push_str(&mut cols, if schema.has_next_id { "c.next_id" } else { "NULL" });
    push_str(&mut cols, if schema.has_attribution { "c.attribution" } else { "NULL" });
    push_str(&mut cols, if schema.has_logic { "c.logic" } else { "NULL" });
    push_str(&mut cols, if schema.has_position { "c.position" } else { "NULL" });
    assert(strs(cols@) =~= head_columns_of(*schema));
    cols
}

fn push_scoring_columns(cols: &mut Vec<String>, inline: bool)
    ensures
        strs(final(cols)@) == strs(old(cols)@) + scoring_columns_of(inline),
{
    if inline {
        push_str(cols, "c.initial");
        push_str(cols, "c.minimum");
        push_str(cols, "c.decay");
        push_str(cols, "c.`function`");
    } else {
        push_str(cols, "d.initial");
        push_str(cols, "d.minimum");
        push_str(cols, "d.decay");
        push_str(cols, "d.`function`");
    }
    assert(strs(cols@) =~= strs(old(cols)@) + scoring_columns_of(inline));
}

fn push_instance_columns(cols: &mut Vec<String>, has_instance: bool)
    ensures
        strs(final(cols)@) == strs(old(cols)@) + instance_columns_of(has_instance),
{
    let ghost start = strs(cols@);
    if has_instance {
        push_str(cols, "i.backend");
        push_str(cols, "i.image");
        push_str(cols, "i.command");
        push_str(cols, "i.compose_file");
        push_str(cols, "i.compose_service");
        push_str(cols, "i.lxc_image");
        push_str(cols, "i.vagrantfile");
        push_str(cols, "i.internal_port");
        push_str(cols, "i.connection");
        push_str(cols, "i.timeout_minutes");
        push_str(cols, "i.max_renewals");
        push_str(cols, "i.flag_mode");
        push_str(cols, "i.flag_prefix");
        push_str(cols, "i.flag_suffix");
        push_str(cols, "i.random_flag_length");
        push_str(cols, "i.initial_value");
        push_str(cols, "i.minimum_value");
        push_str(cols, "i.decay_value");
        push_str(cols, "i.decay_function");
        assert(strs(cols@) =~= start + instance_columns_of(has_instance));
    } else {
        let mut k: usize = 0;
        while k < 19
            invariant
                k <= 19,
                strs(cols@) == start + Seq::new(k as nat, |j: int| "NULL"@),
            decreases 19 - k,
        {
            push_str(cols, "NULL");
            assert(strs(cols@) =~= start + Seq::new((k + 1) as nat, |j: int| "NULL"@));
            k = k + 1;
        }
    }
}

/// The select list of the full-challenge query under `schema`.
pub fn select_list(has_instance: bool, schema: &ChallengesSchema) -> (r: Vec<String>)
    ensures
        strs(r@) == select_list_of(has_instance, *schema),
{
    let mut cols = head_columns(schema);
    push_scoring_columns(&mut cols, schema.dynamic_in_challenges);
    push_instance_columns(&mut cols, has_instance);
    cols
}

/// The query that reads every challenge with its scoring and instance
/// settings.
pub fn full_query(has_instance: bool, schema: &ChallengesSchema) -> (r: String)
    ensures
        r@ == full_query_of(has_instance, *schema),
{
    proof {
        reveal_strlit("");
        assert(""@ =~= seq![]);
    }
    let cols = select_list(has_instance, schema);
    let mut q = String::from_str("SELECT ");
    push_joined(&mut q, &cols, ", ");
    q.append(" FROM challenges c ");
    q.append(if schema.dynamic_in_challenges { "" } else { "LEFT JOIN dynamic_challenge d ON d.id = c.id" });
    q.append(" ");
    q.append(if has_instance { "LEFT JOIN nervctf_instance_challenge i ON i.id = c.id" } else { "" });
    assert(q@ =~= full_query_of(has_instance, *schema));
    q
}

/// Whatever the schema, the full query selects the same 37 columns in the
/// same order, NULL standing in for what a CTFd version lacks, so that a
/// row is read by position alike on every version.
pub proof fn law_query_width(has_instance: bool, s: ChallengesSchema)
    ensures
        select_list_of(has_instance, s).len() == 37,
        forall|k: int| 0 <= k < 10 ==> #[trigger] select_list_of(has_instance, s)[k] == select_list_of(true, s)[k],
        forall|k: int| 10 <= k < 14 ==> #[trigger] select_list_of(has_instance, s)[k] == "NULL"@
            || select_list_of(has_instance, s)[k] == select_list_of(has_instance, ChallengesSchema {
                has_next_id: true, has_attribution: true, has_logic: true, has_position: true, ..s })[k],
        forall|k: int| 18 <= k < 37 ==> #[trigger] select_list_of(has_instance, s)[k] == "NULL"@
            || select_list_of(has_instance, s)[k] == select_list_of(true, s)[k],
{
}

/// The columns of one row of the full query, each as read (none for NULL).
pub struct ChallengeColumns {
    pub id: Option<i64>,
    pub name: Option<String>,
    pub description: Option<String>,
    pub category: Option<String>,
    pub value: Option<i64>,
    pub type_: Option<String>,
    pub state: Option<String>,
    pub max_attempts: Option<i64>,
    pub connection_info: Option<String>,
    pub requirements: Option<String>,
    pub next_id: Option<i64>,
    pub initial: Option<i64>,
    pub minimum: Option<i64>,
    pub decay: Option<i64>,
    pub function: Option<String>,
    pub backend: Option<String>,
    pub image: Option<String>,
    pub command: Option<String>,
    pub compose_file: Option<String>,
    pub compose_service: Option<String>,
    pub lxc_image: Option<String>,
    pub vagrantfile: Option<String>,
    pub internal_port: Option<i64>,
    pub connection: Option<String>,
    pub timeout_minutes: Option<i64>,
    pub max_renewals: Option<i64>,
    pub flag_mode: Option<String>,
    pub flag_prefix: Option<String>,
    pub flag_suffix: Option<String>,
    pub random_flag_length: Option<i64>,
    pub initial_value: Option<i64>,
    pub minimum_value: Option<i64>,
    pub decay_value: Option<i64>,
    pub decay_function: Option<String>,
}

/// Dynamic scoring parameters of a challenge.
pub struct Scoring {
    pub initial: i64,
    pub minimum: Option<i64>,
    pub decay: Option<i64>,
    pub function: Option<String>,
}

/// The instance settings of a challenge, as stored.
pub struct InstanceColumns {
    pub backend: String,
    pub image: Option<String>,
    pub command: Option<String>,
    pub compose_file: Option<String>,
    pub compose_service: Option<String>,
    pub lxc_image: Option<String>,
    pub vagrantfile: Option<String>,
    pub internal_port: Option<i64>,
    pub connection: Option<String>,
    pub timeout_minutes: Option<i64>,
    pub max_renewals: Option<i64>,
    pub flag_mode: Option<String>,
    pub flag_prefix: Option<String>,
    pub flag_suffix: Option<String>,
    pub random_flag_length: Option<i64>,
    pub scoring: Option<Scoring>,
}

/// A challenge as the monitor reports it from the database.
pub struct ChallengeRecord {
    pub id: i64,
    pub name: String,
    pub description: Option<String>,
    pub category: Option<String>,
    pub value: Option<i64>,
    pub type_: String,
    pub state: String,
    pub max_attempts: i64,
    pub connection_info: Option<String>,
    /// The stored requirements text.
    pub requirements: Option<String>,
    pub next_id: Option<i64>,
    pub scoring: Option<Scoring>,
    pub instance: Option<InstanceColumns>,
}

/// `r` holds the scoring parameters `initial`, `minimum`, `decay`,
/// `function`, present exactly when `initial` is.
pub open spec fn scoring_is(
    initial: Option<i64>,
    minimum: Option<i64>,
    decay: Option<i64>,
    function: Option<String>,
    r: Option<Scoring>,
) -> bool {
    match initial {
        None => r is None,
        Some(i) => r matches Some(sc) && sc.initial == i && sc.minimum == minimum && sc.decay == decay
            && opt_str(sc.function) == opt_str(function),
    }
}

/// `r` is the instance group of row `c`: present exactly when the row has
/// a backend, with the stored settings and the instance scoring.
pub open spec fn instance_is(c: ChallengeColumns, r: Option<InstanceColumns>) -> bool {
    match c.backend {
        None => r is None,
        Some(b) => r matches Some(i) && i.backend@ == b@
            && opt_str(i.image) == opt_str(c.image) && opt_str(i.command) == opt_str(c.command)
            && opt_str(i.compose_file) == opt_str(c.compose_file)
            && opt_str(i.compose_service) == opt_str(c.compose_service)
            && opt_str(i.lxc_image) == opt_str(c.lxc_image)
            && opt_str(i.vagrantfile) == opt_str(c.vagrantfile)
            && i.internal_port == c.internal_port && opt_str(i.connection) == opt_str(c.connection)
            && i.timeout_minutes == c.timeout_minutes && i.max_renewals == c.max_renewals
            && opt_str(i.flag_mode) == opt_str(c.flag_mode)
            && opt_str(i.flag_prefix) == opt_str(c.flag_prefix)
            && opt_str(i.flag_suffix) == opt_str(c.flag_suffix)
            && i.random_flag_length == c.random_flag_length
            && scoring_is(c.initial_value, c.minimum_value, c.decay_value, c.decay_function, i.scoring),
    }
}

/// `r` is the record of row `c`: id 0, an empty name, type `standard`,
/// state `hidden` and no attempt limit where the row has none, the
/// scoring group when the row has an initial value, the instance group
/// when it has a backend.
pub open spec fn record_of(c: ChallengeColumns, r: ChallengeRecord) -> bool {
    &&& r.id as int == int_or(c.id, 0)
    &&& r.name@ == str_or(c.name, seq![])
    &&& opt_str(r.description) == opt_str(c.description)
    &&& opt_str(r.category) == opt_str(c.category)
    &&& r.value == c.value
    &&& r.type_@ == str_or(c.type_, "standard"@)
    &&& r.state@ == str_or(c.state, "hidden"@)
    &&& r.max_attempts as int == int_or(c.max_attempts, 0)
    &&& opt_str(r.connection_info) == opt_str(c.connection_info)
    &&& opt_str(r.requirements) == opt_str(c.requirements)
    &&& r.next_id == c.next_id
    &&& scoring_is(c.initial, c.minimum, c.decay, c.function, r.scoring)
    &&& instance_is(c, r.instance)
}

fn scoring(initial: Option<i64>, minimum: Option<i64>, decay: Option<i64>, function: Option<String>) -> (r: Option<Scoring>)
    ensures
        scoring_is(initial, minimum, decay, function, r),
{
    match initial {
        Some(i) => Some(Scoring { initial: i, minimum, decay, function }),
        None => None,
    }
}

fn or_text(o: Option<String>, d: &str) -> (r: String)
    ensures
        r@ == str_or(o, d@),
{
    match o {
        Some(s) => s,
        None => String::from_str(d),
    }
}

/// The record of one row of the full query.
pub fn challenge_record(c: ChallengeColumns) -> (r: ChallengeRecord)
    ensures
        record_of(c, r),
{
    proof {
        reveal_strlit("");
        assert(""@ =~= seq![]);
    }
    let ghost c0 = c;
    let ChallengeColumns {
        id, name, description, category, value, type_, state, max_attempts, connection_info,
        requirements, next_id, initial, minimum, decay, function, backend, image, command,
        compose_file, compose_service, lxc_image, vagrantfile, internal_port, connection,
        timeout_minutes, max_renewals, flag_mode, flag_prefix, flag_suffix, random_flag_length,
        initial_value, minimum_value, decay_value, decay_function,
    } = c;
    let instance = match backend {
        Some(b) => Some(InstanceColumns {
            backend: b,
            image,
            command,
            compose_file,
            compose_service,
            lxc_image,
            vagrantfile,
            internal_port,
            connection,
            timeout_minutes,
            max_renewals,
            flag_mode,
            flag_prefix,
            flag_suffix,
            random_flag_length,
            scoring: scoring(initial_value, minimum_value, decay_value, decay_function),
        }),
        None => None,
    };
    ChallengeRecord {
        id: match id { Some(n) => n, None => 0 },
        name: or_text(name, ""),
        description,
        category,
        value,
        type_: or_text(type_, "standard"),
        state: or_text(state, "hidden"),
        max_attempts: match max_attempts { Some(n) => n, None => 0 },
        connection_info,
        requirements,
        next_id,
        scoring: scoring(initial, minimum, decay, function),
        instance,
    }
}


/// An element of the left part stands in the concatenation.
pub(crate) proof fn lemma_in_left<A>(a: Seq<A>, b: Seq<A>, x: A)
    requires
        a.contains(x),
    ensures
        (a + b).contains(x),
{
    let i = choose|i: int| 0 <= i < a.len() && a[i] == x;
    assert((a + b)[i] == x);
}

/// An element of the right part stands in the concatenation.
pub(crate) proof fn lemma_in_right<A>(a: Seq<A>, b: Seq<A>, x: A)
    requires
        b.contains(x),
    ensures
        (a + b).contains(x),
{
    let i = choose|i: int| 0 <= i < b.len() && b[i] == x;
    assert((a + b)[a.len() + i] == x);
}

/// The `k`-th part of an update plan, in plan order.
pub open spec fn plan_part(schema: ChallengesSchema, b: ChallengeBody, k: int) -> Seq<(Seq<char>, (int, Seq<char>, int))> {
    if k == 0 {
        text_set("name"@, b.name)
    } else if k == 1 {
        text_set("category"@, b.category)
    } else if k == 2 {
        text_set("description"@, b.description)
    } else if k == 3 {
        text_set("`type`"@, b.type_)
    } else if k == 4 {
        text_set("state"@, b.state)
    } else if k == 5 {
        text_set("connection_info"@, b.connection_info)
    } else if k == 6 {
        when(schema.has_logic, text_set("logic"@, b.logic))
    } else if k == 7 {
        when(schema.has_attribution, text_set("attribution"@, b.attribution))
    } else if k == 8 {
        when(schema.dynamic_in_challenges, text_set("`function`"@, b.function))
    } else if k == 9 {
        int_set("value"@, b.value)
    } else if k == 10 {
        int_set("max_attempts"@, either(b.max_attempts, b.attempts))
    } else if k == 11 {
        when(schema.has_next_id, int_set("next_id"@, b.next_id))
    } else if k == 12 {
        text_set("requirements"@, b.requirements)
    } else {
        when(schema.dynamic_in_challenges, int_set("initial"@, b.initial) + int_set("minimum"@, b.minimum) + int_set("decay"@, b.decay))
    }
}

/// The first `k + 1` parts of an update plan, joined.
pub open spec fn plan_prefix(schema: ChallengesSchema, b: ChallengeBody, k: int) -> Seq<(Seq<char>, (int, Seq<char>, int))>
    decreases k,
{
    if k <= 0 {
        plan_part(schema, b, 0)
    } else {
        plan_prefix(schema, b, k - 1) + plan_part(schema, b, k)
    }
}

proof fn lemma_plan_is_prefix(schema: ChallengesSchema, b: ChallengeBody)
    ensures
        update_plan_of(schema, b) == plan_prefix(schema, b, 13),
{
    reveal_with_fuel(plan_prefix, 14);
}

proof fn lemma_part_in_prefix(schema: ChallengesSchema, b: ChallengeBody, k: int, m: int, x: (Seq<char>, (int, Seq<char>, int)))
    requires
        0 <= k <= m,
        plan_part(schema, b, k).contains(x),
    ensures
        plan_prefix(schema, b, m).contains(x),
    decreases m,
{
    if m == k {
        if k > 0 {
            lemma_in_right(plan_prefix(schema, b, k - 1), plan_part(schema, b, k), x);
        }
    } else {
        lemma_part_in_prefix(schema, b, k, m - 1, x);
        lemma_in_left(plan_prefix(schema, b, m - 1), plan_part(schema, b, m), x);
    }
}

/// What stands in plan part `k` stands in the plan.
proof fn lemma_part_in_plan(schema: ChallengesSchema, b: ChallengeBody, k: int, x: (Seq<char>, (int, Seq<char>, int)))
    requires
        0 <= k <= 13,
        plan_part(schema, b, k).contains(x),
    ensures
        update_plan_of(schema, b).contains(x),
{
    lemma_plan_is_prefix(schema, b);
    lemma_part_in_prefix(schema, b, k, 13, x);
}

/// The plan sets column `col` to `v`.
pub open spec fn assigns(p: Seq<(Seq<char>, (int, Seq<char>, int))>, col: Seq<char>, v: (int, Seq<char>, int)) -> bool {
    p.contains((col + " = ?"@, v))
}

/// An update writes every text field the body carries, with the body's
/// value: name, category, description, type, state, connection info and
/// requirements always; `logic`, `attribution` and the scoring `function`
/// where the schema has those columns.
pub proof fn law_update_assigns_text_fields(schema: ChallengesSchema, b: ChallengeBody)
    ensures
        ({
            let p = update_plan_of(schema, b);
            &&& b.name is Some ==> assigns(p, "name"@, text_v(b.name->0@))
            &&& b.category is Some ==> assigns(p, "category"@, text_v(b.category->0@))
            &&& b.description is Some ==> assigns(p, "description"@, text_v(b.description->0@))
            &&& b.type_ is Some ==> assigns(p, "`type`"@, text_v(b.type_->0@))
            &&& b.state is Some ==> assigns(p, "state"@, text_v(b.state->0@))
            &&& b.connection_info is Some ==> assigns(p, "connection_info"@, text_v(b.connection_info->0@))
            &&& b.requirements is Some ==> assigns(p, "requirements"@, text_v(b.requirements->0@))
            &&& (schema.has_logic && b.logic is Some) ==> assigns(p, "logic"@, text_v(b.logic->0@))
            &&& (schema.has_attribution && b.attribution is Some) ==> assigns(p, "attribution"@, text_v(b.attribution->0@))
            &&& (schema.dynamic_in_challenges && b.function is Some) ==> assigns(p, "`function`"@, text_v(b.function->0@))
        }),
{
    if b.name is Some {
        let x = ("name"@ + " = ?"@, text_v(b.name->0@));
        assert(text_set("name"@, b.name)[0] == x);
        assert(plan_part(schema, b, 0).contains(x));
        lemma_part_in_plan(schema, b, 0, x);
    }
    if b.category is Some {
        let x = ("category"@ + " = ?"@, text_v(b.category->0@));
        assert(text_set("category"@, b.category)[0] == x);
        assert(plan_part(schema, b, 1).contains(x));
        lemma_part_in_plan(schema, b, 1, x);
    }
    if b.description is Some {
        let x = ("description"@ + " = ?"@, text_v(b.description->0@));
        assert(text_set("description"@, b.description)[0] == x);
        assert(plan_part(schema, b, 2).contains(x));
        lemma_part_in_plan(schema, b, 2, x);
    }
    if b.type_ is Some {
        let x = ("`type`"@ + " = ?"@, text_v(b.type_->0@));
        assert(text_set("`type`"@, b.type_)[0] == x);
        assert(plan_part(schema, b, 3).contains(x));
        lemma_part_in_plan(schema, b, 3, x);
    }
    if b.state is Some {
        let x = ("state"@ + " = ?"@, text_v(b.state->0@));
        assert(text_set("state"@, b.state)[0] == x);
        assert(plan_part(schema, b, 4).contains(x));
        lemma_part_in_plan(schema, b, 4, x);
    }
    if b.connection_info is Some {
        let x = ("connection_info"@ + " = ?"@, text_v(b.connection_info->0@));
        assert(text_set("connection_info"@, b.connection_info)[0] == x);
        assert(plan_part(schema, b, 5).contains(x));
        lemma_part_in_plan(schema, b, 5, x);
    }
    if b.requirements is Some {
        let x = ("requirements"@ + " = ?"@, text_v(b.requirements->0@));
        assert(text_set("requirements"@, b.requirements)[0] == x);
        assert(plan_part(schema, b, 12).contains(x));
        lemma_part_in_plan(schema, b, 12, x);
    }
    if (schema.has_logic && b.logic is Some) {
        let x = ("logic"@ + " = ?"@, text_v(b.logic->0@));
        assert(text_set("logic"@, b.logic)[0] == x);
        assert(text_set("logic"@, b.logic).contains(x));
        assert(plan_part(schema, b, 6).contains(x));
        lemma_part_in_plan(schema, b, 6, x);
    }
    if (schema.has_attribution && b.attribution is Some) {
        let x = ("attribution"@ + " = ?"@, text_v(b.attribution->0@));
        assert(text_set("attribution"@, b.attribution)[0] == x);
        assert(text_set("attribution"@, b.attribution).contains(x));
        assert(plan_part(schema, b, 7).contains(x));
        lemma_part_in_plan(schema, b, 7, x);
    }
    if (schema.dynamic_in_challenges && b.function is Some) {
        let x = ("`function`"@ + " = ?"@, text_v(b.function->0@));
        assert(text_set("`function`"@, b.function)[0] == x);
        assert(text_set("`function`"@, b.function).contains(x));
        assert(plan_part(schema, b, 8).contains(x));
        lemma_part_in_plan(schema, b, 8, x);
    }
}

/// An update writes every number the body carries, with the body's value:
/// the value and the attempt limit (`max_attempts`, else `attempts`)
/// always; `next_id` and the inline scoring columns where the schema has
/// them.
pub proof fn law_update_assigns_number_fields(schema: ChallengesSchema, b: ChallengeBody)
    ensures
        ({
            let p = update_plan_of(schema, b);
            &&& b.value is Some ==> assigns(p, "value"@, int_v(b.value->0 as int))
            &&& b.max_attempts is Some ==> assigns(p, "max_attempts"@, int_v(b.max_attempts->0 as int))
            &&& (b.max_attempts is None && b.attempts is Some) ==> assigns(p, "max_attempts"@, int_v(b.attempts->0 as int))
            &&& (schema.has_next_id && b.next_id is Some) ==> assigns(p, "next_id"@, int_v(b.next_id->0 as int))
            &&& (schema.dynamic_in_challenges && b.initial is Some) ==> assigns(p, "initial"@, int_v(b.initial->0 as int))
            &&& (schema.dynamic_in_challenges && b.minimum is Some) ==> assigns(p, "minimum"@, int_v(b.minimum->0 as int))
            &&& (schema.dynamic_in_challenges && b.decay is Some) ==> assigns(p, "decay"@, int_v(b.decay->0 as int))
        }),
{
    if b.value is Some {
        let x = ("value"@ + " = ?"@, int_v(b.value->0 as int));
        assert(int_set("value"@, b.value)[0] == x);
        assert(plan_part(schema, b, 9).contains(x));
        lemma_part_in_plan(schema, b, 9, x);
    }
    if b.max_attempts is Some {
        let x = ("max_attempts"@ + " = ?"@, int_v(b.max_attempts->0 as int));
        assert(int_set("max_attempts"@, either(b.max_attempts, b.attempts))[0] == x);
        assert(plan_part(schema, b, 10).contains(x));
        lemma_part_in_plan(schema, b, 10, x);
    }
    if (b.max_attempts is None && b.attempts is Some) {
        let x = ("max_attempts"@ + " = ?"@, int_v(b.attempts->0 as int));
        assert(int_set("max_attempts"@, either(b.max_attempts, b.attempts))[0] == x);
        assert(plan_part(schema, b, 10).contains(x));
        lemma_part_in_plan(schema, b, 10, x);
    }
    if (schema.has_next_id && b.next_id is Some) {
        let x = ("next_id"@ + " = ?"@, int_v(b.next_id->0 as int));
        assert(int_set("next_id"@, b.next_id)[0] == x);
        assert(int_set("next_id"@, b.next_id).contains(x));
        assert(plan_part(schema, b, 11).contains(x));
        lemma_part_in_plan(schema, b, 11, x);
    }
    if (schema.dynamic_in_challenges && b.initial is Some) {
        let x = ("initial"@ + " = ?"@, int_v(b.initial->0 as int));
        assert(int_set("initial"@, b.initial)[0] == x);
        assert(int_set("initial"@, b.initial).contains(x));
        lemma_in_left(int_set("initial"@, b.initial), int_set("minimum"@, b.minimum), x);
        lemma_in_left(int_set("initial"@, b.initial) + int_set("minimum"@, b.minimum), int_set("decay"@, b.decay), x);
        assert(plan_part(schema, b, 13).contains(x));
        lemma_part_in_plan(schema, b, 13, x);
    }
    if (schema.dynamic_in_challenges && b.minimum is Some) {
        let x = ("minimum"@ + " = ?"@, int_v(b.minimum->0 as int));
        assert(int_set("minimum"@, b.minimum)[0] == x);
        assert(int_set("minimum"@, b.minimum).contains(x));
        lemma_in_right(int_set("initial"@, b.initial), int_set("minimum"@, b.minimum), x);
        lemma_in_left(int_set("initial"@, b.initial) + int_set("minimum"@, b.minimum), int_set("decay"@, b.decay), x);
        assert(plan_part(schema, b, 13).contains(x));
        lemma_part_in_plan(schema, b, 13, x);
    }
    if (schema.dynamic_in_challenges && b.decay is Some) {
        let x = ("decay"@ + " = ?"@, int_v(b.decay->0 as int));
        assert(int_set("decay"@, b.decay)[0] == x);
        assert(int_set("decay"@, b.decay).contains(x));
        lemma_in_right(int_set("initial"@, b.initial) + int_set("minimum"@, b.minimum), int_set("decay"@, b.decay), x);
        assert(plan_part(schema, b, 13).contains(x));
        lemma_part_in_plan(schema, b, 13, x);
    }
}


} // verus!
