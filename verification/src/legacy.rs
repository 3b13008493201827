//! Importing the files of the previous Whispera: preferences (never the API
//! key), history and dictionary. The whole import is checked first and then
//! written in one transaction, so a bad file changes nothing.
use vstd::prelude::*;
use crate::storage::{
    default_settings_spec, is_hex_color, is_hotkey, is_model, settings_problem_text, Rule, Settings,
    SettingsProblem,
};
use crate::json::{array_fields, fields_view, json_array_fields, json_string_at, json_valid, parses, string_field, string_view};
use crate::text::{chars_of, str_eq, trim, trim_chars};

verus! {

/// The preferences the previous version kept that are imported; its other
/// preferences, the API key among them, are not read at all.
#[derive(Clone, Debug)]
pub struct LegacySettings {
    pub hotkey: Option<String>,
    pub groq_model: Option<String>,
    pub pill_color: Option<String>,
}

/// One entry of the previous history.
#[derive(Clone, Debug)]
pub struct LegacyEntry {
    pub text: Option<String>,
    pub timestamp: Option<String>,
}

/// One entry of the previous dictionary.
#[derive(Clone, Debug)]
pub struct LegacyRule {
    pub source: Option<String>,
    pub target: Option<String>,
    pub enabled: Option<bool>,
}

/// A history entry to insert.
#[derive(Clone, Debug)]
pub struct LegacyRow {
    pub timestamp: String,
    pub text: String,
}

/// What an import writes.
pub struct ImportPlan {
    /// Preferences to store unless newer ones exist.
    pub settings: Option<Settings>,
    /// History entries to add unless already present.
    pub history: Vec<LegacyRow>,
    /// The dictionary to store, the current one with the imported rules
    /// appended.
    pub rules: Option<Vec<Rule>>,
}

/// The color a named color of the previous version stands for.
pub open spec fn legacy_color_spec(c: Seq<char>) -> Seq<char> {
    if c == "red"@ {
        "#F51C28"@
    } else if c == "bordo"@ || c == "bordeaux"@ {
        "#800020"@
    } else if c == "purple"@ {
        "#9024DC"@
    } else if c == "gold"@ {
        "#E5B322"@
    } else if c == "white"@ {
        "#F3F3F3"@
    } else {
        c
    }
}

pub fn legacy_color(c: &str) -> (r: String)
    ensures
        r@ == legacy_color_spec(c@),
{
    if str_eq(c, "red") {
        String::from_str("#F51C28")
    } else if str_eq(c, "bordo") || str_eq(c, "bordeaux") {
        String::from_str("#800020")
    } else if str_eq(c, "purple") {
        String::from_str("#9024DC")
    } else if str_eq(c, "gold") {
        String::from_str("#E5B322")
    } else if str_eq(c, "white") {
        String::from_str("#F3F3F3")
    } else {
        c.to_owned()
    }
}

/// Imported preferences: the defaults, with the previous shortcut, model and
/// color where they were set.
pub open spec fn imported_settings_spec(ls: LegacySettings, s: Settings) -> bool {
    &&& s.hotkey@ == (match ls.hotkey {
        Some(h) => h@,
        None => "Control+Shift+Space"@,
    })
    &&& s.model@ == (match ls.groq_model {
        Some(m) => m@,
        None => "whisper-large-v3-turbo"@,
    })
    &&& s.color@ == (match ls.pill_color {
        Some(c) => legacy_color_spec(c@),
        None => "#9024DC"@,
    })
    &&& s.language@ == "es"@
    &&& s.pattern@ == "wave"@
    &&& s.placement@ == "right"@
    &&& s.auto_copy
    &&& s.auto_paste
    &&& s.sound_theme@ == "cristal"@
    &&& s.sounds
    &&& s.recorder_scale_bits == crate::storage::SCALE_DEFAULT_BITS
    &&& s.trim_silence
    &&& s.watchdog
    &&& s.incremental_transcription
}

pub fn imported_settings(ls: &LegacySettings) -> (s: Settings)
    ensures
        imported_settings_spec(*ls, s),
{
    let mut s = Settings::default();
    if let Some(h) = &ls.hotkey {
        s.hotkey = h.clone();
    }
    if let Some(m) = &ls.groq_model {
        s.model = m.clone();
    }
    if let Some(c) = &ls.pill_color {
        s.color = legacy_color(c.as_str());
    }
    s
}

/// The first unusable history entry among the first `n`, as its message.
pub open spec fn entry_problem(items: Seq<LegacyEntry>, n: nat) -> Option<Seq<char>>
    decreases n,
{
    if n == 0 {
        None
    } else {
        match entry_problem(items, (n - 1) as nat) {
            Some(m) => Some(m),
            None => if items[n - 1].text is None {
                Some("Transcripcion anterior invalida"@)
            } else if items[n - 1].timestamp is None {
                Some("Fecha de transcripcion invalida"@)
            } else {
                None
            },
        }
    }
}

/// The first unusable dictionary entry among the first `n`, as its message.
pub open spec fn rule_item_problem(items: Seq<LegacyRule>, n: nat) -> Option<Seq<char>>
    decreases n,
{
    if n == 0 {
        None
    } else {
        match rule_item_problem(items, (n - 1) as nat) {
            Some(m) => Some(m),
            None => {
                let it = items[n - 1];
                if it.source is None {
                    Some("Palabra anterior invalida"@)
                } else if it.target is None {
                    Some("Correccion anterior invalida"@)
                } else if trim(it.source->0@).len() == 0 || trim(it.target->0@).len() == 0 {
                    Some("Regla anterior vacia"@)
                } else {
                    None
                }
            },
        }
    }
}

/// A rule as (source, target, enabled); imported rules get fresh ids.
pub open spec fn rule_triple(r: Rule) -> (Seq<char>, Seq<char>, bool) {
    (r.source@, r.target@, r.enabled)
}

/// The dictionary after the first `n` imported entries: an entry is
/// appended, enabled unless marked otherwise, when no rule with the same
/// source and target is there yet.
pub open spec fn merged_after(stored: Seq<(Seq<char>, Seq<char>, bool)>, items: Seq<LegacyRule>, n: nat) -> Seq<(Seq<char>, Seq<char>, bool)>
    decreases n,
{
    if n == 0 {
        stored
    } else {
        let m = merged_after(stored, items, (n - 1) as nat);
        let it = items[n - 1];
        let s = it.source->0@;
        let t = it.target->0@;
        if exists|j: int| 0 <= j < m.len() && (#[trigger] m[j]).0 == s && m[j].1 == t {
            m
        } else {
            m.push((s, t, match it.enabled {
                Some(e) => e,
                None => true,
            }))
        }
    }
}

/// A lowercase hexadecimal digit.
pub open spec fn is_lower_hex(c: char) -> bool {
    ('0' <= c <= '9') || ('a' <= c <= 'f')
}

/// The text of a version-4 UUID: 36 characters, hyphens at 8, 13, 18 and
/// 23, lowercase hexadecimal digits elsewhere, the version digit `4` at 14
/// and one of `8`, `9`, `a`, `b` at 19.
pub open spec fn is_uuid_v4_text(s: Seq<char>) -> bool {
    &&& s.len() == 36
    &&& forall|i: int|
        0 <= i < 36 ==> (if i == 8 || i == 13 || i == 18 || i == 23 {
            s[i] == '-'
        } else {
            is_lower_hex(#[trigger] s[i])
        })
    &&& s[14] == '4'
    &&& (s[19] == '8' || s[19] == '9' || s[19] == 'a' || s[19] == 'b')
}

/// A fresh random id for an imported rule: `uuid::Uuid::new_v4`, written
/// out by its `Display`. Claimed: the text has the form of a version-4 UUID
/// (the crate sets the version and variant bits and writes the hyphenated
/// lowercase form); which UUID it is, is random and not stated.
#[verifier::external_body]
fn new_id() -> (r: String)
    ensures
        is_uuid_v4_text(r@),
{
    uuid::Uuid::new_v4().to_string()
}

/// Whether any of the three files of the previous version was found.
pub fn check_found(settings: bool, history: bool, rules: bool) -> (r: Result<(), String>)
    ensures
        r is Ok <==> (settings || history || rules),
        r matches Err(m) ==> m@ == "No se encontraron archivos de Whispera en esa carpeta"@,
{
    if !settings && !history && !rules {
        return Err(String::from_str("No se encontraron archivos de Whispera en esa carpeta"));
    }
    Ok(())
}

fn has_pair(list: &Vec<Rule>, s: &String, t: &String) -> (r: bool)
    ensures
        r == exists|j: int| 0 <= j < list.len() && (#[trigger] list@[j]).source@ == s@ && list@[j].target@ == t@,
{
    let mut j: usize = 0;
    while j < list.len()
        invariant
            j <= list.len(),
            forall|k: int| 0 <= k < j ==> !((#[trigger] list@[k]).source@ == s@ && list@[k].target@ == t@),
        decreases list.len() - j,
    {
        if list[j].source == *s && list[j].target == *t {
            return true;
        }
        j += 1;
    }
    false
}

/// The imported entries appended to the current dictionary, or the first
/// problem.
pub fn merge_rules(stored: Vec<Rule>, items: &[LegacyRule]) -> (r: Result<Vec<Rule>, String>)
    ensures
        r matches Err(m) ==> rule_item_problem(items@, items.len() as nat) == Some(m@),
        r is Ok <==> rule_item_problem(items@, items.len() as nat) is None,
        r matches Ok(v) ==> v@.map_values(|x: Rule| rule_triple(x)) == merged_after(stored@.map_values(|x: Rule| rule_triple(x)), items@, items.len() as nat),
        r matches Ok(v) ==> v@.subrange(0, stored.len() as int) == stored@,
        r matches Ok(v) ==> forall|i: int| stored.len() <= i < v.len() ==> is_uuid_v4_text(#[trigger] v@[i].id@),
{
    let ghost base = stored@;
    let ghost base_view = stored@.map_values(|x: Rule| rule_triple(x));
    let mut merged = stored;
    let mut i: usize = 0;
    while i < items.len()
        invariant
            i <= items.len(),
            base.len() <= merged.len(),
            merged@.subrange(0, base.len() as int) == base,
            base_view == base.map_values(|x: Rule| rule_triple(x)),
            rule_item_problem(items@, i as nat) is None,
            merged@.map_values(|x: Rule| rule_triple(x)) == merged_after(base_view, items@, i as nat),
            forall|k: int| base.len() <= k < merged.len() ==> is_uuid_v4_text(#[trigger] merged@[k].id@),
        decreases items.len() - i,
    {
        let it = &items[i];
        let s = match &it.source {
            None => {
                assert(rule_item_problem(items@, (i + 1) as nat) == Some("Palabra anterior invalida"@));
                proof { lemma_rule_problem_stays(items@, (i + 1) as nat, items.len() as nat); }
                return Err(String::from_str("Palabra anterior invalida"));
            },
            Some(s) => s,
        };
        let t = match &it.target {
            None => {
                assert(rule_item_problem(items@, (i + 1) as nat) == Some("Correccion anterior invalida"@));
                proof { lemma_rule_problem_stays(items@, (i + 1) as nat, items.len() as nat); }
                return Err(String::from_str("Correccion anterior invalida"));
            },
            Some(t) => t,
        };
        if trim_chars(chars_of(s.as_str()).as_slice()).len() == 0 || trim_chars(chars_of(t.as_str()).as_slice()).len() == 0 {
            assert(rule_item_problem(items@, (i + 1) as nat) == Some("Regla anterior vacia"@));
            proof { lemma_rule_problem_stays(items@, (i + 1) as nat, items.len() as nat); }
            return Err(String::from_str("Regla anterior vacia"));
        }
        let ghost m = merged@.map_values(|x: Rule| rule_triple(x));
        if !has_pair(&merged, s, t) {
            assert(!exists|j: int| 0 <= j < m.len() && (#[trigger] m[j]).0 == s@ && m[j].1 == t@) by {
                if exists|j: int| 0 <= j < m.len() && (#[trigger] m[j]).0 == s@ && m[j].1 == t@ {
                    let j = choose|j: int| 0 <= j < m.len() && (#[trigger] m[j]).0 == s@ && m[j].1 == t@;
                    assert(merged@[j].source@ == s@ && merged@[j].target@ == t@);
                }
            }
            let enabled = match it.enabled {
                Some(e) => e,
                None => true,
            };
            let ghost before = merged@;
            merged.push(Rule { id: new_id(), source: s.clone(), target: t.clone(), enabled });
            assert(merged@.map_values(|x: Rule| rule_triple(x)) == m.push((s@, t@, enabled)));
            assert(merged@.subrange(0, base.len() as int) == before.subrange(0, base.len() as int));
        } else {
            assert(exists|j: int| 0 <= j < m.len() && (#[trigger] m[j]).0 == s@ && m[j].1 == t@) by {
                let j = choose|j: int| 0 <= j < merged.len() && (#[trigger] merged@[j]).source@ == s@ && merged@[j].target@ == t@;
                assert(m[j].0 == s@ && m[j].1 == t@);
            }
        }
        i += 1;
    }
    Ok(merged)
}

proof fn lemma_rule_problem_stays(items: Seq<LegacyRule>, n: nat, m: nat)
    requires
        n <= m,
        rule_item_problem(items, n) is Some,
    ensures
        rule_item_problem(items, m) == rule_item_problem(items, n),
    decreases m - n,
{
    if m > n {
        lemma_rule_problem_stays(items, n, (m - 1) as nat);
    }
}

proof fn lemma_entry_problem_stays(items: Seq<LegacyEntry>, n: nat, m: nat)
    requires
        n <= m,
        entry_problem(items, n) is Some,
    ensures
        entry_problem(items, m) == entry_problem(items, n),
    decreases m - n,
{
    if m > n {
        lemma_entry_problem_stays(items, n, (m - 1) as nat);
    }
}

/// The history entries to insert, or the first unusable entry.
pub fn history_rows(items: &[LegacyEntry]) -> (r: Result<Vec<LegacyRow>, String>)
    ensures
        r is Ok <==> entry_problem(items@, items.len() as nat) is None,
        r matches Err(m) ==> entry_problem(items@, items.len() as nat) == Some(m@),
        r matches Ok(rows) ==> rows.len() == items.len() && forall|i: int| 0 <= i < rows.len() ==> {
            &&& (#[trigger] rows@[i]).text@ == items@[i].text->0@
            &&& rows@[i].timestamp@ == items@[i].timestamp->0@
        },
{
    let mut rows: Vec<LegacyRow> = Vec::new();
    let mut i: usize = 0;
    while i < items.len()
        invariant
            i <= items.len(),
            rows.len() == i,
            entry_problem(items@, i as nat) is None,
            forall|k: int| 0 <= k < i ==> {
                &&& (#[trigger] rows@[k]).text@ == items@[k].text->0@
                &&& rows@[k].timestamp@ == items@[k].timestamp->0@
            },
        decreases items.len() - i,
    {
        let text = match &items[i].text {
            None => {
                assert(entry_problem(items@, (i + 1) as nat) == Some("Transcripcion anterior invalida"@));
                proof { lemma_entry_problem_stays(items@, (i + 1) as nat, items.len() as nat); }
                return Err(String::from_str("Transcripcion anterior invalida"));
            },
            Some(t) => t.clone(),
        };
        let timestamp = match &items[i].timestamp {
            None => {
                assert(entry_problem(items@, (i + 1) as nat) == Some("Fecha de transcripcion invalida"@));
                proof { lemma_entry_problem_stays(items@, (i + 1) as nat, items.len() as nat); }
                return Err(String::from_str("Fecha de transcripcion invalida"));
            },
            Some(t) => t.clone(),
        };
        rows.push(LegacyRow { timestamp, text });
        i += 1;
    }
    Ok(rows)
}

/// Why imported preferences would be refused, from the previous version's
/// fields alone: the other preferences are the defaults, which are valid.
pub open spec fn legacy_settings_problem(ls: LegacySettings) -> Option<SettingsProblem> {
    let model = match ls.groq_model {
        Some(m) => m@,
        None => "whisper-large-v3-turbo"@,
    };
    let color = match ls.pill_color {
        Some(c) => legacy_color_spec(c@),
        None => "#9024DC"@,
    };
    let hotkey = match ls.hotkey {
        Some(h) => h@,
        None => "Control+Shift+Space"@,
    };
    if !is_model(model) {
        Some(SettingsProblem::Model)
    } else if !is_hex_color(color) {
        Some(SettingsProblem::Color)
    } else if !is_hotkey(hotkey) {
        Some(SettingsProblem::Hotkey)
    } else {
        None
    }
}

/// Why an import is refused, as its message: the preferences are checked
/// first, then the history, then the dictionary.
pub open spec fn import_problem(
    settings: Option<LegacySettings>,
    history: Option<Option<Vec<LegacyEntry>>>,
    rules: Option<Option<Vec<LegacyRule>>>,
    stored: Result<Vec<Rule>, String>,
) -> Option<Seq<char>> {
    if settings matches Some(ls) && legacy_settings_problem(ls) is Some {
        Some(settings_problem_text(legacy_settings_problem(settings->0)->0))
    } else if history matches Some(None) {
        Some("El historial anterior no es una lista"@)
    } else if history matches Some(Some(items)) && entry_problem(items@, items.len() as nat) is Some {
        entry_problem(history->0->0@, history->0->0.len() as nat)
    } else if rules matches Some(None) {
        Some("Diccionario anterior invalido"@)
    } else if rules is Some && stored is Err {
        Some(stored->Err_0@)
    } else if rules matches Some(Some(items)) && rule_item_problem(items@, items.len() as nat) is Some {
        rule_item_problem(rules->0->0@, rules->0->0.len() as nat)
    } else {
        None
    }
}

/// What an import writes, or why nothing is written. `history` and `rules`
/// are `None` when the file is absent and `Some(None)` when it does not hold
/// a list; `stored` is the current dictionary as read.
pub fn plan_import(
    settings: Option<LegacySettings>,
    history: Option<Option<Vec<LegacyEntry>>>,
    rules: Option<Option<Vec<LegacyRule>>>,
    stored: Result<Vec<Rule>, String>,
) -> (r: Result<ImportPlan, String>)
    ensures
        r is Err <==> import_problem(settings, history, rules, stored) is Some,
        r matches Err(m) ==> import_problem(settings, history, rules, stored) == Some(m@),
        r matches Ok(p) ==> {
            // preferences: imported from the known fields only
            &&& (settings matches Some(ls) ==> (p.settings matches Some(s) && imported_settings_spec(ls, s)))
            &&& (settings is None ==> p.settings is None)
            // history: every entry, in order
            &&& (history is None ==> p.history.len() == 0)
            &&& (history matches Some(Some(items)) ==> p.history.len() == items.len() && forall|i: int|
                0 <= i < items.len() ==> {
                    &&& (#[trigger] p.history@[i]).text@ == items@[i].text->0@
                    &&& p.history@[i].timestamp@ == items@[i].timestamp->0@
                })
            // dictionary: the current one, then each new entry
            &&& (rules is None ==> p.rules is None)
            &&& (rules matches Some(Some(items)) ==> (p.rules matches Some(v) && v@.map_values(
                |x: Rule| rule_triple(x),
            ) == merged_after(stored->Ok_0@.map_values(|x: Rule| rule_triple(x)), items@, items.len() as nat)
                && v@.subrange(0, stored->Ok_0.len() as int) == stored->Ok_0@
                && forall|i: int| stored->Ok_0.len() <= i < v.len() ==> is_uuid_v4_text(#[trigger] v@[i].id@)))
        },
{
    let plan_settings = match &settings {
        Some(ls) => {
            let s = imported_settings(ls);
            proof {
                lemma_imported_problem(*ls, s);
            }
            match s.validate() {
                Err(e) => {
                    return Err(e);
                },
                Ok(()) => {},
            }
            Some(s)
        },
        None => None,
    };
    let rows = match history {
        None => Vec::new(),
        Some(None) => {
            return Err(String::from_str("El historial anterior no es una lista"));
        },
        Some(Some(items)) => match history_rows(items.as_slice()) {
            Ok(rows) => rows,
            Err(e) => {
                return Err(e);
            },
        },
    };
    let merged = match rules {
        None => None,
        Some(None) => {
            return Err(String::from_str("Diccionario anterior invalido"));
        },
        Some(Some(items)) => {
            let current = match stored {
                Ok(v) => v,
                Err(e) => {
                    return Err(e);
                },
            };
            match merge_rules(current, items.as_slice()) {
                Ok(v) => Some(v),
                Err(e) => {
                    return Err(e);
                },
            }
        },
    };
    Ok(ImportPlan { settings: plan_settings, history: rows, rules: merged })
}

proof fn lemma_imported_problem(ls: LegacySettings, s: Settings)
    requires
        imported_settings_spec(ls, s),
    ensures
        s.problem() == legacy_settings_problem(ls),
{
}

/// Largest file of the previous version that is read, in bytes.
pub const MAX_LEGACY_BYTES: u64 = 32_000_000;

/// A file of the previous version is read only up to `MAX_LEGACY_BYTES`.
pub fn legacy_file_size(len: u64) -> (r: Result<(), String>)
    ensures
        r is Ok <==> len <= MAX_LEGACY_BYTES,
        r matches Err(m) ==> m@ == "Archivo de importacion demasiado grande"@,
{
    if len > MAX_LEGACY_BYTES {
        Err(String::from_str("Archivo de importacion demasiado grande"))
    } else {
        Ok(())
    }
}

/// The answer when a folder was imported before: nothing is written again.
pub fn already_imported() -> (m: String)
    ensures
        m@ == "Esta carpeta ya fue importada"@,
{
    String::from_str("Esta carpeta ya fue importada")
}

// ---------------------------------------------------------------------------
// Reading the previous version's files
// ---------------------------------------------------------------------------

/// A file of the previous version must be JSON; otherwise nothing is
/// imported.
pub fn legacy_document(doc: &[u8]) -> (r: Result<(), String>)
    ensures
        r is Ok <==> json_valid(doc@),
        r matches Err(m) ==> m@ == "Un archivo anterior contiene JSON invalido; no se importo nada"@,
{
    if parses(doc) {
        Ok(())
    } else {
        Err(String::from_str("Un archivo anterior contiene JSON invalido; no se importo nada"))
    }
}

/// The preferences found in the previous settings file: the strings under
/// `hotkey`, `groq_model` and `pill_color`, and nothing else (never the key).
pub fn legacy_settings_from(doc: &[u8]) -> (s: LegacySettings)
    ensures
        string_view(s.hotkey) == json_string_at(doc@, "hotkey"@),
        string_view(s.groq_model) == json_string_at(doc@, "groq_model"@),
        string_view(s.pill_color) == json_string_at(doc@, "pill_color"@),
{
    LegacySettings {
        hotkey: string_field(doc, "hotkey"),
        groq_model: string_field(doc, "groq_model"),
        pill_color: string_field(doc, "pill_color"),
    }
}

/// The entries of the previous history file: a list of objects with a
/// `text` and a `timestamp` (the third field read is not used).
pub open spec fn history_list(doc: Seq<u8>) -> Option<Seq<(Option<Seq<char>>, Option<Seq<char>>, Option<bool>)>> {
    json_array_fields(doc, ""@, "text"@, "timestamp"@, "enabled"@)
}

/// The entries of the previous dictionary file: a list of objects with a
/// `source`, a `target` and an optional `enabled`, either the whole file or
/// the list under `corrections`.
pub open spec fn rules_list(doc: Seq<u8>) -> Option<Seq<(Option<Seq<char>>, Option<Seq<char>>, Option<bool>)>> {
    match json_array_fields(doc, ""@, "source"@, "target"@, "enabled"@) {
        Some(l) => Some(l),
        None => json_array_fields(doc, "/corrections"@, "source"@, "target"@, "enabled"@),
    }
}

/// The history entries of the previous history file, or `None` when it
/// holds no list.
pub fn legacy_history_from(doc: &[u8]) -> (r: Option<Vec<LegacyEntry>>)
    ensures
        r is None <==> history_list(doc@) is None,
        r matches Some(v) ==> {
            let l = history_list(doc@)->0;
            &&& v.len() == l.len()
            &&& forall|i: int| 0 <= i < v.len() ==> {
                &&& string_view((#[trigger] v@[i]).text) == l[i].0
                &&& string_view(v@[i].timestamp) == l[i].1
            }
        },
{
    let items = match array_fields(doc, "", "text", "timestamp", "enabled") {
        Some(items) => items,
        None => return None,
    };
    let ghost l = history_list(doc@)->0;
    let mut out: Vec<LegacyEntry> = Vec::new();
    let mut i: usize = 0;
    while i < items.len()
        invariant
            i <= items.len(),
            l == items@.map_values(|e: (Option<String>, Option<String>, Option<bool>)| fields_view(e)),
            out.len() == i,
            forall|k: int| 0 <= k < i ==> {
                &&& string_view((#[trigger] out@[k]).text) == l[k].0
                &&& string_view(out@[k].timestamp) == l[k].1
            },
        decreases items.len() - i,
    {
        let text = items[i].0.clone();
        let timestamp = items[i].1.clone();
        out.push(LegacyEntry { text, timestamp });
        i += 1;
    }
    Some(out)
}

/// The entries of the previous dictionary file, or `None` when it holds no
/// list.
pub fn legacy_rules_from(doc: &[u8]) -> (r: Option<Vec<LegacyRule>>)
    ensures
        r is None <==> rules_list(doc@) is None,
        r matches Some(v) ==> {
            let l = rules_list(doc@)->0;
            &&& v.len() == l.len()
            &&& forall|i: int| 0 <= i < v.len() ==> {
                &&& string_view((#[trigger] v@[i]).source) == l[i].0
                &&& string_view(v@[i].target) == l[i].1
                &&& v@[i].enabled == l[i].2
            }
        },
{
    let items = match array_fields(doc, "", "source", "target", "enabled") {
        Some(items) => items,
        None => match array_fields(doc, "/corrections", "source", "target", "enabled") {
            Some(items) => items,
            None => return None,
        },
    };
    let ghost l = rules_list(doc@)->0;
    let mut out: Vec<LegacyRule> = Vec::new();
    let mut i: usize = 0;
    while i < items.len()
        invariant
            i <= items.len(),
            l == items@.map_values(|e: (Option<String>, Option<String>, Option<bool>)| fields_view(e)),
            out.len() == i,
            forall|k: int| 0 <= k < i ==> {
                &&& string_view((#[trigger] out@[k]).source) == l[k].0
                &&& string_view(out@[k].target) == l[k].1
                &&& out@[k].enabled == l[k].2
            },
        decreases items.len() - i,
    {
        let source = items[i].0.clone();
        let target = items[i].1.clone();
        let enabled = items[i].2;
        out.push(LegacyRule { source, target, enabled });
        i += 1;
    }
    Some(out)
}

/// The message of a completed import.
pub fn import_done_message() -> (m: String)
    ensures
        m@ == "Historial y diccionario importados. Preferencias importadas solo si no habia configuracion nueva. La clave API no se importa."@,
{
    String::from_str("Historial y diccionario importados. Preferencias importadas solo si no habia configuracion nueva. La clave API no se importa.")
}

/// Importing the same dictionary entries twice adds nothing the second
/// time: every entry is then already present with its source and target.
pub proof fn law_merge_idempotent(stored: Seq<(Seq<char>, Seq<char>, bool)>, items: Seq<LegacyRule>)
    requires
        rule_item_problem(items, items.len()) is None,
    ensures
        merged_after(merged_after(stored, items, items.len()), items, items.len()) == merged_after(stored, items, items.len()),
{
    let once = merged_after(stored, items, items.len());
    lemma_merge_contains(stored, items, items.len());
    lemma_merge_noop(once, items, items.len());
}

/// Whether a rule with source `s` and target `t` is in `m`.
pub open spec fn has_rule(m: Seq<(Seq<char>, Seq<char>, bool)>, s: Seq<char>, t: Seq<char>) -> bool {
    exists|j: int| 0 <= j < m.len() && (#[trigger] m[j]).0 == s && m[j].1 == t
}

proof fn lemma_merge_prefix(stored: Seq<(Seq<char>, Seq<char>, bool)>, items: Seq<LegacyRule>, n: nat, m: nat)
    requires
        n <= m <= items.len(),
    ensures
        merged_after(stored, items, n).len() <= merged_after(stored, items, m).len(),
        forall|j: int| 0 <= j < merged_after(stored, items, n).len() ==> #[trigger] merged_after(stored, items, m)[j] == merged_after(stored, items, n)[j],
    decreases m - n,
{
    if m > n {
        lemma_merge_prefix(stored, items, n, (m - 1) as nat);
    }
}

proof fn lemma_merge_contains(stored: Seq<(Seq<char>, Seq<char>, bool)>, items: Seq<LegacyRule>, n: nat)
    requires
        n <= items.len(),
    ensures
        forall|i: int| 0 <= i < n ==> has_rule(merged_after(stored, items, n), (#[trigger] items[i]).source->0@, items[i].target->0@),
    decreases n,
{
    if n > 0 {
        lemma_merge_contains(stored, items, (n - 1) as nat);
        lemma_merge_prefix(stored, items, (n - 1) as nat, n);
        let prev = merged_after(stored, items, (n - 1) as nat);
        let cur = merged_after(stored, items, n);
        assert forall|i: int| 0 <= i < n implies has_rule(cur, (#[trigger] items[i]).source->0@, items[i].target->0@) by {
            if i < n - 1 {
                assert(has_rule(prev, items[i].source->0@, items[i].target->0@));
                let j = choose|j: int| 0 <= j < prev.len() && (#[trigger] prev[j]).0 == items[i].source->0@ && prev[j].1 == items[i].target->0@;
                assert(cur[j] == prev[j]);
            } else {
                let s = items[i].source->0@;
                let t = items[i].target->0@;
                if exists|j: int| 0 <= j < prev.len() && (#[trigger] prev[j]).0 == s && prev[j].1 == t {
                    let j = choose|j: int| 0 <= j < prev.len() && (#[trigger] prev[j]).0 == s && prev[j].1 == t;
                    assert(cur[j] == prev[j]);
                } else {
                    assert(cur[prev.len() as int].0 == s);
                }
            }
        }
    }
}

proof fn lemma_merge_noop(base: Seq<(Seq<char>, Seq<char>, bool)>, items: Seq<LegacyRule>, n: nat)
    requires
        n <= items.len(),
        forall|i: int| 0 <= i < items.len() ==> has_rule(base, (#[trigger] items[i]).source->0@, items[i].target->0@),
    ensures
        merged_after(base, items, n) == base,
    decreases n,
{
    if n > 0 {
        lemma_merge_noop(base, items, (n - 1) as nat);
        let i = n - 1;
        assert(has_rule(base, items[i].source->0@, items[i].target->0@));
    }
}

/// `entry` is the source and target of one of the first `n` imported
/// entries, switched on unless that entry was marked as switched off.
pub open spec fn from_entry(entry: (Seq<char>, Seq<char>, bool), items: Seq<LegacyRule>, n: int) -> bool {
    exists|i: int|
        0 <= i < n && (#[trigger] items[i]).source->0@ == entry.0 && items[i].target->0@ == entry.1
            && entry.2 == (items[i].enabled != Some(false))
}

/// Importing keeps the current dictionary in front and only appends: each
/// appended rule is an imported entry's source and target, switched on
/// unless that entry was marked as switched off; and every imported entry
/// is then present.
pub proof fn law_merge_appends_imported(stored: Seq<(Seq<char>, Seq<char>, bool)>, items: Seq<LegacyRule>)
    requires
        rule_item_problem(items, items.len()) is None,
    ensures
        merged_after(stored, items, items.len()).len() >= stored.len(),
        merged_after(stored, items, items.len()).subrange(0, stored.len() as int) == stored,
        forall|j: int|
            stored.len() <= j < merged_after(stored, items, items.len()).len() ==> from_entry(
                #[trigger] merged_after(stored, items, items.len())[j],
                items,
                items.len() as int,
            ),
        forall|i: int| 0 <= i < items.len() ==> has_rule(
            merged_after(stored, items, items.len()),
            (#[trigger] items[i]).source->0@,
            items[i].target->0@,
        ),
{
    lemma_merge_appended(stored, items, items.len());
    lemma_merge_contains(stored, items, items.len());
}

proof fn lemma_merge_appended(stored: Seq<(Seq<char>, Seq<char>, bool)>, items: Seq<LegacyRule>, n: nat)
    requires
        n <= items.len(),
    ensures
        merged_after(stored, items, n).len() >= stored.len(),
        merged_after(stored, items, n).subrange(0, stored.len() as int) == stored,
        forall|j: int|
            stored.len() <= j < merged_after(stored, items, n).len() ==> from_entry(
                #[trigger] merged_after(stored, items, n)[j],
                items,
                n as int,
            ),
    decreases n,
{
    if n == 0 {
        assert(stored.subrange(0, stored.len() as int) =~= stored);
    } else {
        lemma_merge_appended(stored, items, (n - 1) as nat);
        let prev = merged_after(stored, items, (n - 1) as nat);
        let cur = merged_after(stored, items, n);
        if cur != prev {
            let it = items[n - 1];
            assert(cur == prev.push((it.source->0@, it.target->0@, match it.enabled {
                Some(e) => e,
                None => true,
            })));
            assert(cur.subrange(0, stored.len() as int) =~= prev.subrange(0, stored.len() as int));
            assert forall|j: int| stored.len() <= j < cur.len() implies from_entry(#[trigger] cur[j], items, n as int) by {
                if j < prev.len() {
                    assert(cur[j] == prev[j]);
                    assert(from_entry(prev[j], items, n - 1));
                    let i = choose|i: int| 0 <= i < n - 1 && (#[trigger] items[i]).source->0@ == prev[j].0
                        && items[i].target->0@ == prev[j].1 && prev[j].2 == (items[i].enabled != Some(false));
                    assert(0 <= i < n);
                } else {
                    let i = n - 1;
                    assert(items[i].source->0@ == cur[j].0);
                }
            }
        }
    }
}

/// The named colors of the previous version become their hexadecimal
/// values (red, bordo or bordeaux, purple, gold, white); any other value is
/// kept as it was, and every name gives a valid `#RRGGBB` color.
pub proof fn law_legacy_colors(c: Seq<char>)
    ensures
        c == "red"@ ==> legacy_color_spec(c) == "#F51C28"@,
        (c == "bordo"@ || c == "bordeaux"@) ==> legacy_color_spec(c) == "#800020"@,
        c == "purple"@ ==> legacy_color_spec(c) == "#9024DC"@,
        c == "gold"@ ==> legacy_color_spec(c) == "#E5B322"@,
        c == "white"@ ==> legacy_color_spec(c) == "#F3F3F3"@,
        !(c == "red"@ || c == "bordo"@ || c == "bordeaux"@ || c == "purple"@ || c == "gold"@ || c
            == "white"@) ==> legacy_color_spec(c) == c,
        legacy_color_spec(c) != c ==> is_hex_color(legacy_color_spec(c)),
{
    reveal_strlit("red");
    reveal_strlit("bordo");
    reveal_strlit("bordeaux");
    reveal_strlit("purple");
    reveal_strlit("gold");
    reveal_strlit("white");
    assert("bordo"@ != "red"@ && "bordeaux"@ != "red"@) by {
        assert("bordo"@[0] != "red"@[0] && "bordeaux"@[0] != "red"@[0]);
    }
    assert("purple"@ != "red"@ && "purple"@ != "bordo"@ && "purple"@ != "bordeaux"@) by {
        assert("purple"@[0] != "red"@[0] && "purple"@[0] != "bordo"@[0]);
    }
    assert("gold"@ != "red"@ && "gold"@ != "bordo"@ && "gold"@ != "bordeaux"@ && "gold"@ != "purple"@) by {
        assert("gold"@[0] != "red"@[0] && "gold"@[0] != "bordo"@[0] && "gold"@[0] != "purple"@[0]);
    }
    assert("white"@ != "red"@ && "white"@ != "bordo"@ && "white"@ != "bordeaux"@ && "white"@ != "purple"@
        && "white"@ != "gold"@) by {
        assert("white"@[0] != "red"@[0] && "white"@[0] != "bordo"@[0] && "white"@[0] != "purple"@[0]
            && "white"@[0] != "gold"@[0]);
    }
    reveal_strlit("#F51C28");
    reveal_strlit("#800020");
    reveal_strlit("#9024DC");
    reveal_strlit("#E5B322");
    reveal_strlit("#F3F3F3");
}

/// Imported preferences are the defaults with the previous shortcut, model
/// and color where set, and they are refused exactly for the reason the
/// previous fields give.
pub proof fn law_imported_settings(ls: LegacySettings, s: Settings)
    requires
        imported_settings_spec(ls, s),
    ensures
        s.problem() == legacy_settings_problem(ls),
        s.language@ == "es"@ && s.sound_theme@ == "cristal"@ && s.pattern@ == "wave"@
            && s.placement@ == "right"@,
{
    lemma_imported_problem(ls, s);
}

} // verus!
