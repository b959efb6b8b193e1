//! What the monitor concludes from probing CTFd's database: the schema of
//! the `challenges` table, the CTFd mode and version, and the status of
//! each capability with the notes explaining every one that is not ok.
use vstd::prelude::*;
use crate::models::{listed, strs};

verus! {

/// Columns of CTFd's challenge tables that change how challenges are
/// written.
pub struct ChallengesSchema {
    pub has_attribution: bool,
    pub has_logic: bool,
    pub has_position: bool,
    /// All four inline scoring columns are in `challenges` (newer CTFd).
    pub dynamic_in_challenges: bool,
    /// Only some of the inline scoring columns are present.
    pub dynamic_partial: bool,
    pub has_next_id: bool,
    pub has_dynamic_table: bool,
    pub dynamic_table_has_scoring: bool,
}

/// The schema described by the column names of `challenges` and of
/// `dynamic_challenge` (no columns: the table is absent).
pub open spec fn schema_of(cols: Seq<Seq<char>>, dyn_cols: Seq<Seq<char>>) -> ChallengesSchema {
    let initial = cols.contains("initial"@);
    let minimum = cols.contains("minimum"@);
    let decay = cols.contains("decay"@);
    let function = cols.contains("function"@);
    ChallengesSchema {
        has_attribution: cols.contains("attribution"@),
        has_logic: cols.contains("logic"@),
        has_position: cols.contains("position"@),
        dynamic_in_challenges: initial && minimum && decay && function,
        dynamic_partial: initial && !(minimum && decay && function),
        has_next_id: cols.contains("next_id"@),
        has_dynamic_table: dyn_cols.len() > 0,
        dynamic_table_has_scoring: dyn_cols.contains("initial"@),
    }
}

/// Reads the schema off the column lists.
pub fn detect_schema(cols: &Vec<String>, dyn_cols: &Vec<String>) -> (r: ChallengesSchema)
    ensures
        r == schema_of(strs(cols@), strs(dyn_cols@)),
{
    let initial = listed(cols, "initial");
    let minimum = listed(cols, "minimum");
    let decay = listed(cols, "decay");
    let function = listed(cols, "function");
    ChallengesSchema {
        has_attribution: listed(cols, "attribution"),
        has_logic: listed(cols, "logic"),
        has_position: listed(cols, "position"),
        dynamic_in_challenges: initial && minimum && decay && function,
        dynamic_partial: initial && !(minimum && decay && function),
        has_next_id: listed(cols, "next_id"),
        has_dynamic_table: dyn_cols.len() > 0,
        dynamic_table_has_scoring: listed(dyn_cols, "initial"),
    }
}

/// Whether CTFd runs in team mode, user mode, or could not be told.
pub enum CtfdMode {
    TeamMode,
    UserMode,
    Unknown,
}

/// Team mode as a flag: none when the mode is unknown.
pub fn team_mode_flag(mode: &CtfdMode) -> (r: Option<bool>)
    ensures
        r == match mode {
            CtfdMode::TeamMode => Some(true),
            CtfdMode::UserMode => Some(false),
            CtfdMode::Unknown => None,
        },
{
    match mode {
        CtfdMode::TeamMode => Some(true),
        CtfdMode::UserMode => Some(false),
        CtfdMode::Unknown => None,
    }
}

/// The CTFd version from the `ctf_version` config row, and where it came
/// from; an absent or empty row leaves the version to be inferred.
pub fn version_from_config(row: Option<String>) -> (r: (Option<String>, String))
    ensures
        match row {
            Some(v) => if v@.len() > 0 {
                r.0 == Some(v) && r.1@ == "configs_table"@
            } else {
                r.0 is None && r.1@ == "inferred"@
            },
            None => r.0 is None && r.1@ == "inferred"@,
        },
{
    match row {
        Some(v) => {
            if v.as_str().unicode_len() > 0 {
                (Some(v), String::from_str("configs_table"))
            } else {
                (None, String::from_str("inferred"))
            }
        },
        None => (None, String::from_str("inferred")),
    }
}

/// Status of each capability, with a note for every one that is not ok.
pub struct Capabilities {
    pub challenge_crud: String,
    pub dynamic_scoring: String,
    pub player_auth: String,
    pub instance_flags: String,
    pub redis_sync: String,
    pub notes: Vec<String>,
}

pub open spec fn crud_status(s: ChallengesSchema) -> Seq<char> {
    if s.has_next_id { "ok"@ } else { "degraded"@ }
}

pub open spec fn scoring_status(s: ChallengesSchema) -> Seq<char> {
    if s.dynamic_partial {
        "broken"@
    } else if s.dynamic_in_challenges || (s.has_dynamic_table && !s.dynamic_partial) {
        "ok"@
    } else {
        "degraded"@
    }
}

pub open spec fn auth_status(team_mode: Option<bool>) -> Seq<char> {
    match team_mode {
        Some(true) => "ok"@,
        Some(false) => "broken"@,
        None => "degraded"@,
    }
}

pub open spec fn instance_status(has_instance_table: bool) -> Seq<char> {
    if has_instance_table { "ok"@ } else { "degraded"@ }
}

pub open spec fn note_next_id() -> Seq<char> {
    "challenges.next_id column absent — next_id field will be silently ignored (CTFd < 3.5.x)"@
}

pub open spec fn note_partial_scoring() -> Seq<char> {
    "Partial inline scoring migration detected — deploy of dynamic challenges will fail with SQL errors"@
}

pub open spec fn note_user_mode() -> Seq<char> {
    "CTFd is in user-mode — all player instance requests will return 403"@
}

pub open spec fn note_unknown_mode() -> Seq<char> {
    "CTFd mode could not be determined — player auth may fail if user-mode is active"@
}

pub open spec fn note_no_plugin() -> Seq<char> {
    "nervctf_instance_challenge table absent — plugin not installed; instance challenges will fail"@
}

pub open spec fn note_redis() -> Seq<char> {
    "Direct MariaDB writes bypass CTFd Redis cache — stale data may be served until CTFd restart or TTL expiry"@
}

/// `note` when `cond` holds, nothing otherwise.
pub open spec fn note_if(cond: bool, note: Seq<char>) -> Seq<Seq<char>> {
    if cond { seq![note] } else { seq![] }
}

/// The notes, in order, for the capabilities that are not ok, ending with
/// the Redis note that always applies.
pub open spec fn probe_notes(s: ChallengesSchema, team_mode: Option<bool>, has_instance_table: bool) -> Seq<Seq<char>> {
    note_if(crud_status(s) == "degraded"@, note_next_id())
        + note_if(scoring_status(s) == "broken"@, note_partial_scoring())
        + note_if(auth_status(team_mode) == "broken"@, note_user_mode())
        + note_if(auth_status(team_mode) == "degraded"@, note_unknown_mode())
        + note_if(instance_status(has_instance_table) == "degraded"@, note_no_plugin())
        + seq![note_redis()]
}

/// Applies the capability rules. Redis sync is always degraded, because
/// the monitor writes to MariaDB behind CTFd's cache.
pub fn capabilities(schema: &ChallengesSchema, team_mode: Option<bool>, has_instance_table: bool) -> (r: Capabilities)
    ensures
        r.challenge_crud@ == crud_status(*schema),
        r.dynamic_scoring@ == scoring_status(*schema),
        r.player_auth@ == auth_status(team_mode),
        r.instance_flags@ == instance_status(has_instance_table),
        r.redis_sync@ == "degraded"@,
        strs(r.notes@) == probe_notes(*schema, team_mode, has_instance_table),
{
    proof {
        reveal_strlit("ok");
        reveal_strlit("degraded");
        reveal_strlit("broken");
    }
    assert("ok"@.len() == 2 && "degraded"@.len() == 8 && "broken"@.len() == 6);
    assert("ok"@ != "degraded"@);
    assert("ok"@ != "broken"@);
    assert("broken"@ != "degraded"@);
    let mut notes: Vec<String> = Vec::new();
    let crud_ok = schema.has_next_id;
    if !crud_ok {
        notes.push(String::from_str(
            "challenges.next_id column absent — next_id field will be silently ignored (CTFd < 3.5.x)",
        ));
    }
    let ghost e1 = note_if(crud_status(*schema) == "degraded"@, note_next_id());
    assert(strs(notes@) =~= e1);
    let scoring: u8 = if schema.dynamic_partial {
        2
    } else if schema.dynamic_in_challenges || (schema.has_dynamic_table && !schema.dynamic_partial) {
        0
    } else {
        1
    };
    if scoring == 2 {
        notes.push(String::from_str(
            "Partial inline scoring migration detected — deploy of dynamic challenges will fail with SQL errors",
        ));
    }
    let ghost e2 = e1 + note_if(scoring_status(*schema) == "broken"@, note_partial_scoring());
    assert(strs(notes@) =~= e2);
    match team_mode {
        Some(true) => {},
        Some(false) => {
            notes.push(String::from_str("CTFd is in user-mode — all player instance requests will return 403"));
        },
        None => {
            notes.push(String::from_str(
                "CTFd mode could not be determined — player auth may fail if user-mode is active",
            ));
        },
    }
    let ghost e3 = e2 + note_if(auth_status(team_mode) == "broken"@, note_user_mode())
        + note_if(auth_status(team_mode) == "degraded"@, note_unknown_mode());
    assert(strs(notes@) =~= e3);
    if !has_instance_table {
        notes.push(String::from_str(
            "nervctf_instance_challenge table absent — plugin not installed; instance challenges will fail",
        ));
    }
    let ghost e4 = e3 + note_if(instance_status(has_instance_table) == "degraded"@, note_no_plugin());
    assert(strs(notes@) =~= e4);
    notes.push(String::from_str(
        "Direct MariaDB writes bypass CTFd Redis cache — stale data may be served until CTFd restart or TTL expiry",
    ));
    let caps = Capabilities {
        challenge_crud: String::from_str(if crud_ok { "ok" } else { "degraded" }),
        dynamic_scoring: String::from_str(if scoring == 2 { "broken" } else if scoring == 0 { "ok" } else { "degraded" }),
        player_auth: String::from_str(match team_mode {
            Some(true) => "ok",
            Some(false) => "broken",
            None => "degraded",
        }),
        instance_flags: String::from_str(if has_instance_table { "ok" } else { "degraded" }),
        redis_sync: String::from_str("degraded"),
        notes,
    };
    assert(strs(caps.notes@) =~= probe_notes(*schema, team_mode, has_instance_table));
    caps
}


/// The mode named by CTFd's `user_mode` config value: `1` or `true` is user
/// mode; `0`, `false`, empty or no value is team mode; anything else is
/// unknown.
pub open spec fn ctfd_mode_spec(value: Option<Seq<char>>) -> CtfdMode {
    match value {
        None => CtfdMode::TeamMode,
        Some(v) => if v == "1"@ || v == "true"@ {
            CtfdMode::UserMode
        } else if v == "0"@ || v == "false"@ || v.len() == 0 {
            CtfdMode::TeamMode
        } else {
            CtfdMode::Unknown
        },
    }
}

/// Reads the CTFd mode off the `user_mode` config value.
pub fn ctfd_mode_of(value: Option<&str>) -> (r: CtfdMode)
    ensures
        r == ctfd_mode_spec(match value {
            Some(v) => Some(v@),
            None => None,
        }),
{
    match value {
        None => CtfdMode::TeamMode,
        Some(v) => {
            if crate::text::eq_str(v, "1") || crate::text::eq_str(v, "true") {
                CtfdMode::UserMode
            } else if crate::text::eq_str(v, "0") || crate::text::eq_str(v, "false") || v.unicode_len() == 0 {
                CtfdMode::TeamMode
            } else {
                CtfdMode::Unknown
            }
        },
    }
}

/// `a` sorts no later than `b`: character by character by code point, a
/// prefix first.
pub open spec fn seq_le(a: Seq<char>, b: Seq<char>) -> bool
    decreases a.len(),
{
    if a.len() == 0 {
        true
    } else if b.len() == 0 {
        false
    } else if (a[0] as int) < (b[0] as int) {
        true
    } else if (a[0] as int) > (b[0] as int) {
        false
    } else {
        seq_le(a.drop_first(), b.drop_first())
    }
}

/// Calls `slice::sort` on strings. std orders strings lexicographically by
/// their bytes, which orders characters by code point; the sort returns the
/// same strings in ascending order.
#[verifier::external_body]
fn sort_strings(v: Vec<String>) -> (r: Vec<String>)
    ensures
        strs(r@).to_multiset() == strs(v@).to_multiset(),
        forall|i: int, j: int| 0 <= i < j < r@.len() ==> seq_le(#[trigger] r@[i]@, #[trigger] r@[j]@),
{
    let mut v = v;
    v.sort();
    v
}

/// What a probe of CTFd's database found.
pub struct ProbeResult {
    /// When the probe ran, as `YYYY-MM-DD HH:MM:SS UTC`.
    pub probed_at: String,
    pub ctfd_version_tag: Option<String>,
    /// `configs_table` or `inferred`.
    pub ctfd_version_source: String,
    pub is_team_mode: Option<bool>,
    /// The columns of `challenges`, sorted.
    pub challenges_cols: Vec<String>,
    pub has_dynamic_table: bool,
    /// The columns of `dynamic_challenge`, sorted; none when it is absent.
    pub dynamic_cols: Vec<String>,
    pub has_next_id: bool,
    pub has_attribution: bool,
    pub has_logic: bool,
    pub has_position: bool,
    pub dynamic_inline: bool,
    pub dynamic_partial: bool,
    pub has_instance_table: bool,
    pub cap_challenge_crud: String,
    pub cap_dynamic_scoring: String,
    pub cap_player_auth: String,
    pub cap_instance_flags: String,
    pub cap_redis_sync: String,
    pub probe_notes: Vec<String>,
}

/// The probe's record from what it read: the column lists of `challenges`
/// and `dynamic_challenge`, the `ctf_version` and `user_mode` config values,
/// and whether the plugin's table exists. The column lists are recorded
/// sorted; the schema, version, mode and capabilities follow the rules of
/// `detect_schema`, `version_from_config`, `ctfd_mode_of` and
/// `capabilities`.
pub fn probe_result(
    probed_at: String,
    challenges_cols: Vec<String>,
    dynamic_cols: Vec<String>,
    version_row: Option<String>,
    user_mode: Option<&str>,
    has_instance_table: bool,
) -> (r: ProbeResult)
    ensures
        r.probed_at == probed_at,
        strs(r.challenges_cols@).to_multiset() == strs(challenges_cols@).to_multiset(),
        forall|i: int, j: int| 0 <= i < j < r.challenges_cols@.len() ==> seq_le(#[trigger] r.challenges_cols@[i]@, #[trigger] r.challenges_cols@[j]@),
        strs(r.dynamic_cols@).to_multiset() == strs(dynamic_cols@).to_multiset(),
        forall|i: int, j: int| 0 <= i < j < r.dynamic_cols@.len() ==> seq_le(#[trigger] r.dynamic_cols@[i]@, #[trigger] r.dynamic_cols@[j]@),
        ({
            let schema = schema_of(strs(challenges_cols@), strs(dynamic_cols@));
            let team = match ctfd_mode_spec(match user_mode { Some(v) => Some(v@), None => None }) {
                CtfdMode::TeamMode => Some(true),
                CtfdMode::UserMode => Some(false),
                CtfdMode::Unknown => None,
            };
            &&& r.has_dynamic_table == schema.has_dynamic_table
            &&& r.has_next_id == schema.has_next_id
            &&& r.has_attribution == schema.has_attribution
            &&& r.has_logic == schema.has_logic
            &&& r.has_position == schema.has_position
            &&& r.dynamic_inline == schema.dynamic_in_challenges
            &&& r.dynamic_partial == schema.dynamic_partial
            &&& r.has_instance_table == has_instance_table
            &&& r.is_team_mode == team
            &&& r.cap_challenge_crud@ == crud_status(schema)
            &&& r.cap_dynamic_scoring@ == scoring_status(schema)
            &&& r.cap_player_auth@ == auth_status(team)
            &&& r.cap_instance_flags@ == instance_status(has_instance_table)
            &&& r.cap_redis_sync@ == "degraded"@
            &&& strs(r.probe_notes@) == probe_notes(schema, team, has_instance_table)
        }),
        match version_row {
            Some(v) => if v@.len() > 0 {
                r.ctfd_version_tag == Some(v) && r.ctfd_version_source@ == "configs_table"@
            } else {
                r.ctfd_version_tag is None && r.ctfd_version_source@ == "inferred"@
            },
            None => r.ctfd_version_tag is None && r.ctfd_version_source@ == "inferred"@,
        },
{
    let schema = detect_schema(&challenges_cols, &dynamic_cols);
    let (ctfd_version_tag, ctfd_version_source) = version_from_config(version_row);
    let mode = ctfd_mode_of(user_mode);
    let is_team_mode = team_mode_flag(&mode);
    let caps = capabilities(&schema, is_team_mode, has_instance_table);
    let challenges_cols = sort_strings(challenges_cols);
    let dynamic_cols = sort_strings(dynamic_cols);
    ProbeResult {
        probed_at,
        ctfd_version_tag,
        ctfd_version_source,
        is_team_mode,
        challenges_cols,
        has_dynamic_table: schema.has_dynamic_table,
        dynamic_cols,
        has_next_id: schema.has_next_id,
        has_attribution: schema.has_attribution,
        has_logic: schema.has_logic,
        has_position: schema.has_position,
        dynamic_inline: schema.dynamic_in_challenges,
        dynamic_partial: schema.dynamic_partial,
        has_instance_table,
        cap_challenge_crud: caps.challenge_crud,
        cap_dynamic_scoring: caps.dynamic_scoring,
        cap_player_auth: caps.player_auth,
        cap_instance_flags: caps.instance_flags,
        cap_redis_sync: caps.redis_sync,
        probe_notes: caps.notes,
    }
}

/// The note of a probe that could not connect.
pub open spec fn unreachable_note(error: Seq<char>) -> Seq<char> {
    "Cannot connect to CTFd MariaDB: "@ + error
}

/// The probe's record when the database cannot be reached: nothing known,
/// every capability broken but Redis sync (degraded), and one note with
/// the connection error.
pub fn unreachable_probe(probed_at: String, error: &str) -> (r: ProbeResult)
    ensures
        r.probed_at == probed_at,
        r.ctfd_version_tag is None,
        r.ctfd_version_source@ == "inferred"@,
        r.is_team_mode is None,
        r.challenges_cols@.len() == 0,
        !r.has_dynamic_table,
        r.dynamic_cols@.len() == 0,
        !r.has_next_id && !r.has_attribution && !r.has_logic && !r.has_position,
        !r.dynamic_inline && !r.dynamic_partial && !r.has_instance_table,
        r.cap_challenge_crud@ == "broken"@,
        r.cap_dynamic_scoring@ == "broken"@,
        r.cap_player_auth@ == "broken"@,
        r.cap_instance_flags@ == "broken"@,
        r.cap_redis_sync@ == "degraded"@,
        strs(r.probe_notes@) == seq![unreachable_note(error@)],
{
    let mut note = String::from_str("Cannot connect to CTFd MariaDB: ");
    note.append(error);
    let mut notes: Vec<String> = Vec::new();
    notes.push(note);
    assert(strs(notes@) =~= seq![unreachable_note(error@)]);
    ProbeResult {
        probed_at,
        ctfd_version_tag: None,
        ctfd_version_source: String::from_str("inferred"),
        is_team_mode: None,
        challenges_cols: Vec::new(),
        has_dynamic_table: false,
        dynamic_cols: Vec::new(),
        has_next_id: false,
        has_attribution: false,
        has_logic: false,
        has_position: false,
        dynamic_inline: false,
        dynamic_partial: false,
        has_instance_table: false,
        cap_challenge_crud: String::from_str("broken"),
        cap_dynamic_scoring: String::from_str("broken"),
        cap_player_auth: String::from_str("broken"),
        cap_instance_flags: String::from_str("broken"),
        cap_redis_sync: String::from_str("degraded"),
        probe_notes: notes,
    }
}

} // verus!
