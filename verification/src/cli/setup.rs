//! What the command line decides before it reads and asks.

use vstd::prelude::*;

use crate::corroboration::engine::CorroborationStats;
use crate::lift::lifter::{DiagnosticSeverity, LiftDiagnostic, UnresolvedInfo, UnresolvedUse};
use crate::lines::opt_text;
use crate::llm::{LlmConfig, ProviderType};
use crate::model::space_data::{index_view, put_entry};
use crate::model::store::text_lists;
use crate::text::{chars_of, decimal, decimal_text, find_from, has, texts};
use crate::text_map::{with_entry, TextMap};
use crate::text_set::{including, TextSet};

verus! {

pub open spec fn key_name(provider: ProviderType) -> Seq<char> {
    match provider {
        ProviderType::Claude => "ANTHROPIC_API_KEY"@,
        ProviderType::OpenAi => "OPENAI_API_KEY"@,
    }
}

/// The model that is asked where none is named; a provider may name its models
/// after itself. `name` is what the provider is called on the command line.
pub open spec fn usual_model(provider: ProviderType, name: Seq<char>) -> Seq<char> {
    match provider {
        ProviderType::Claude => name + "-sonnet-4-20250514"@,
        ProviderType::OpenAi => "gpt-4o"@,
    }
}

/// Names the model that is asked where none is named.
fn default_model(provider: ProviderType, name: &str) -> (r: String)
    ensures
        r@ == usual_model(provider, name@),
{
    match provider {
        ProviderType::Claude => {
            let mut model = name.to_owned();
            model.append("-sonnet-4-20250514");
            model
        },
        ProviderType::OpenAi => "gpt-4o".to_owned(),
    }
}

/// The variable of the environment that holds the key of a provider.
pub fn key_variable(provider: ProviderType) -> (r: &'static str)
    ensures
        r@ == key_name(provider),
{
    match provider {
        ProviderType::Claude => "ANTHROPIC_API_KEY",
        ProviderType::OpenAi => "OPENAI_API_KEY",
    }
}

pub open spec fn first_text(a: Option<Seq<char>>, b: Option<Seq<char>>) -> Option<Seq<char>> {
    match a {
        Some(t) => Some(t),
        None => b,
    }
}

/// How the language model is reached, by what the user asks for and what the
/// environment holds: not at all without a provider and a key. `name` is what
/// the provider is called on the command line.
pub fn choose_llm(
    provider: Option<ProviderType>,
    name: &str,
    api_key: Option<String>,
    from_environment: Option<String>,
    model: Option<String>,
    base_url: Option<String>,
) -> (r: Option<LlmConfig>)
    ensures
        match provider {
            Some(p) => match first_text(opt_text(api_key), opt_text(from_environment)) {
                Some(key) => r matches Some(c) && c.provider == p && c.api_key@ == key && Some(c.model@) == first_text(
                    opt_text(model),
                    Some(usual_model(p, name@)),
                ) && opt_text(c.base_url) == opt_text(base_url) && c.max_tokens == 4096 && c.temperature_bits == 0,
                None => r is None,
            },
            None => r is None,
        },
{
    let kind = match provider {
        Some(p) => p,
        None => {
            return None;
        },
    };
    let api_key = match api_key {
        Some(k) => k,
        None => match from_environment {
            Some(k) => k,
            None => {
                return None;
            },
        },
    };
    let model = match model {
        Some(m) => m,
        None => default_model(kind, name),
    };
    Some(LlmConfig { provider: kind, api_key, model, base_url, max_tokens: 4096, temperature_bits: 0 })
}

/// How many diagnostics have a severity.
pub open spec fn severity_count(v: Seq<LiftDiagnostic>, severity: DiagnosticSeverity) -> nat
    decreases v.len(),
{
    if v.len() == 0 {
        0
    } else if v.last().severity == severity {
        severity_count(v.drop_last(), severity) + 1
    } else {
        severity_count(v.drop_last(), severity)
    }
}

/// Counts the diagnostics of a severity.
pub fn count_severity(v: &Vec<LiftDiagnostic>, severity: DiagnosticSeverity) -> (r: usize)
    ensures
        r == severity_count(v@, severity),
{
    let mut r: usize = 0;
    let mut i: usize = 0;
    while i < v.len()
        invariant
            i <= v@.len(),
            r <= i,
            r == severity_count(v@.take(i as int), severity),
        decreases v.len() - i,
    {
        assert(v@.take(i + 1).drop_last() =~= v@.take(i as int));
        if v[i].severity == severity {
            r = r + 1;
        }
        i = i + 1;
    }
    assert(v@.take(i as int) =~= v@);
    r
}

/// What a lift came to.
#[derive(Debug, Clone, Copy)]
pub struct LiftCounts {
    pub entities: usize,
    pub relations: usize,
    pub warnings: usize,
    pub errors: usize,
    pub violations: usize,
}

/// What is printed of a lift.
pub open spec fn lift_summary(c: LiftCounts, s: CorroborationStats, store: Seq<char>, space_id: Seq<char>) -> Seq<char> {
    "Lift complete:\n  Entities:    "@ + decimal_text(c.entities as nat) + "\n  Relations:   "@ + decimal_text(
        c.relations as nat,
    ) + "\n  Warnings:    "@ + decimal_text(c.warnings as nat) + "\n  Errors:      "@ + decimal_text(c.errors as nat)
        + "\n"@ + (if s.corroborated > 0 {
        "  LLM corroborated: "@ + decimal_text(s.corroborated as nat) + "\n  LLM parse fails:  "@ + decimal_text(
            s.parse_failures as nat,
        ) + "\n  LLM errors:       "@ + decimal_text(s.llm_errors as nat) + "\n"@
    } else {
        Seq::empty()
    }) + "  Invariant violations: "@ + decimal_text(c.violations as nat) + "\n  Stored at:   "@ + store + "/spaces/"@
        + space_id + "/space.json\n"@
}

/// Writes what is printed of a lift.
pub fn write_lift_summary(c: &LiftCounts, s: &CorroborationStats, store: &str, space_id: &str) -> (r: String)
    ensures
        r@ == lift_summary(*c, *s, store@, space_id@),
{
    let mut out = "Lift complete:\n  Entities:    ".to_owned();
    out.append(decimal(c.entities as u128).as_str());
    out.append("\n  Relations:   ");
    out.append(decimal(c.relations as u128).as_str());
    out.append("\n  Warnings:    ");
    out.append(decimal(c.warnings as u128).as_str());
    out.append("\n  Errors:      ");
    out.append(decimal(c.errors as u128).as_str());
    out.append("\n");
    let mut middle = String::new();
    if s.corroborated > 0 {
        middle.append("  LLM corroborated: ");
        middle.append(decimal(s.corroborated as u128).as_str());
        middle.append("\n  LLM parse fails:  ");
        middle.append(decimal(s.parse_failures as u128).as_str());
        middle.append("\n  LLM errors:       ");
        middle.append(decimal(s.llm_errors as u128).as_str());
        middle.append("\n");
    }
    assert(middle@ =~= if s.corroborated > 0 {
        "  LLM corroborated: "@ + decimal_text(s.corroborated as nat) + "\n  LLM parse fails:  "@ + decimal_text(
            s.parse_failures as nat,
        ) + "\n  LLM errors:       "@ + decimal_text(s.llm_errors as nat) + "\n"@
    } else {
        Seq::empty()
    });
    out.append(middle.as_str());
    out.append("  Invariant violations: ");
    out.append(decimal(c.violations as u128).as_str());
    out.append("\n  Stored at:   ");
    out.append(store);
    out.append("/spaces/");
    out.append(space_id);
    out.append("/space.json\n");
    out
}

/// Of XML files only the mappers are of use.
pub fn is_useful(is_xml: bool, content: &str) -> (r: bool)
    ensures
        r == (!is_xml || has(content@, "<mapper"@)),
{
    !is_xml || find_from(chars_of(content).as_slice(), "<mapper", 0).is_some()
}

/// Where a name is used, as a key.
pub open spec fn place_key(u: UnresolvedUse) -> Seq<char> {
    u.file + ":"@ + decimal_text(u.line as nat) + ":"@ + decimal_text(u.column as nat)
}

/// The keys of the first uses.
pub open spec fn place_keys(v: Seq<UnresolvedUse>) -> Seq<Seq<char>>
    decreases v.len(),
{
    if v.len() == 0 {
        Seq::empty()
    } else {
        including(place_keys(v.drop_last()), place_key(v.last()))
    }
}

/// The first use at every place.
pub open spec fn first_uses(v: Seq<UnresolvedUse>) -> Seq<UnresolvedUse>
    decreases v.len(),
{
    if v.len() == 0 {
        Seq::empty()
    } else {
        let before = first_uses(v.drop_last());
        if place_keys(v.drop_last()).contains(place_key(v.last())) {
            before
        } else {
            before.push(v.last())
        }
    }
}

pub open spec fn use_views(v: Seq<UnresolvedInfo>) -> Seq<UnresolvedUse> {
    v.map_values(|u: UnresolvedInfo| u@)
}

/// Keeps one use for every place, so that nothing is asked twice.
pub fn unique_uses(v: &Vec<UnresolvedInfo>) -> (r: Vec<UnresolvedInfo>)
    ensures
        use_views(r@) == first_uses(use_views(v@)),
{
    let ghost all = use_views(v@);
    let mut seen = TextSet::new();
    let mut r: Vec<UnresolvedInfo> = Vec::new();
    let mut i: usize = 0;
    assert(use_views(r@) =~= Seq::empty());
    while i < v.len()
        invariant
            i <= v@.len(),
            all == use_views(v@),
            seen.texts() == place_keys(all.take(i as int)),
            use_views(r@) == first_uses(all.take(i as int)),
        decreases v.len() - i,
    {
        let u = &v[i];
        assert(all[i as int] == u@);
        assert(all.take(i + 1).drop_last() =~= all.take(i as int));
        let mut key = u.file.clone();
        key.append(":");
        key.append(decimal(u.line as u128).as_str());
        key.append(":");
        key.append(decimal(u.column as u128).as_str());
        if seen.add_text(key) {
            let ghost before = use_views(r@);
            let item = UnresolvedInfo {
                target_text: u.target_text.clone(),
                file: u.file.clone(),
                line: u.line,
                column: u.column,
            };
            let ghost iv = item@;
            r.push(item);
            assert(use_views(r@) =~= before.push(iv));
        }
        i = i + 1;
    }
    assert(all.take(i as int) =~= all);
    r
}

/// The names that the first uses have been resolved to: the first answer to
/// each.
pub open spec fn resolved_uses(
    uses: Seq<UnresolvedUse>,
    answers: Seq<Seq<Seq<char>>>,
    n: int,
) -> Seq<(Seq<char>, Seq<char>)>
    decreases n,
{
    if n <= 0 {
        Seq::empty()
    } else {
        let before = resolved_uses(uses, answers, n - 1);
        if answers[n - 1].len() > 0 {
            with_entry(before, uses[n - 1].target_text, answers[n - 1][0])
        } else {
            before
        }
    }
}

/// Keeps the first answer to every use.
pub fn keep_resolutions(uses: &Vec<UnresolvedInfo>, answers: &Vec<Vec<String>>) -> (r: TextMap<String>)
    requires
        answers@.len() == uses@.len(),
    ensures
        index_view(r) == resolved_uses(use_views(uses@), text_lists(answers@), uses@.len() as int),
{
    let ghost all = use_views(uses@);
    let ghost lists = text_lists(answers@);
    let mut r: TextMap<String> = TextMap::new();
    let mut i: usize = 0;
    assert(index_view(r) =~= Seq::empty());
    while i < uses.len()
        invariant
            i <= uses@.len(),
            answers@.len() == uses@.len(),
            all == use_views(uses@),
            lists == text_lists(answers@),
            index_view(r) == resolved_uses(all, lists, i as int),
        decreases uses.len() - i,
    {
        assert(all[i as int] == uses@[i as int]@);
        assert(lists[i as int] == texts(answers@[i as int]@));
        assert(texts(answers@[i as int]@).len() == answers@[i as int]@.len());
        if answers[i].len() > 0 {
            assert(texts(answers@[i as int]@)[0] == answers@[i as int]@[0]@);
            put_entry(&mut r, uses[i].target_text.clone(), answers[i][0].clone());
        }
        i = i + 1;
    }
    r
}

/// Whether a pattern matches a path, both without backslashes; none where the
/// pattern is malformed.
pub uninterp spec fn glob_matches(pattern: Seq<char>, path: Seq<char>) -> Option<bool>;

/// `glob::Pattern::new` and `Pattern::matches_path`: whether a pattern matches
/// a path, none where the pattern is malformed. On texts without backslashes
/// the result depends on the texts alone; whether a backslash separates the
/// parts of a path depends on the machine, so nothing is said of the others.
#[verifier::external_body]
fn matches_glob(pattern: &str, path: &str) -> (r: Option<bool>)
    ensures
        !pattern@.contains('\\') && !path@.contains('\\') ==> r == glob_matches(pattern@, path@),
{
    glob::Pattern::new(pattern).ok().map(|p| p.matches_path(std::path::Path::new(path)))
}

/// A path is left out where one of the patterns matches it.
pub fn any_match(matches: &Vec<Option<bool>>) -> (r: bool)
    ensures
        r == matches@.contains(Some(true)),
{
    let mut i: usize = 0;
    while i < matches.len()
        invariant
            i <= matches@.len(),
            forall|k: int| 0 <= k < i ==> matches@[k] != Some(true),
        decreases matches.len() - i,
    {
        match matches[i] {
            Some(true) => {
                assert(matches@[i as int] == Some(true));
                return true;
            },
            _ => {},
        }
        i = i + 1;
    }
    false
}

/// A text without backslashes.
pub open spec fn is_plain(s: Seq<char>) -> bool {
    !s.contains('\\')
}

/// One of the patterns matches a path.
pub open spec fn excludes(patterns: Seq<Seq<char>>, path: Seq<char>) -> bool {
    exists|i: int| 0 <= i < patterns.len() && glob_matches(#[trigger] patterns[i], path) == Some(true)
}

/// Whether a path is left out by patterns: where one of them matches it.
pub fn is_excluded(path: &str, patterns: &Vec<String>) -> (r: bool)
    ensures
        is_plain(path@) && (forall|i: int| 0 <= i < patterns@.len() ==> is_plain(#[trigger] texts(patterns@)[i])) ==> r
            == excludes(texts(patterns@), path@),
        patterns@.len() == 0 ==> !r,
{
    let ghost all = texts(patterns@);
    let mut found: Vec<Option<bool>> = Vec::new();
    let mut i: usize = 0;
    while i < patterns.len()
        invariant
            i <= patterns@.len(),
            all == texts(patterns@),
            found@.len() == i,
            forall|k: int|
                0 <= k < i && is_plain(path@) && is_plain(#[trigger] all[k]) ==> found@[k] == glob_matches(all[k], path@),
        decreases patterns.len() - i,
    {
        assert(all[i as int] == patterns@[i as int]@);
        found.push(matches_glob(patterns[i].as_str(), path));
        i = i + 1;
    }
    proof {
        if is_plain(path@) && forall|k: int| 0 <= k < patterns@.len() ==> is_plain(#[trigger] all[k]) {
            if found@.contains(Some(true)) {
                let k = choose|k: int| 0 <= k < found@.len() && found@[k] == Some(true);
                assert(is_plain(all[k]));
                assert(glob_matches(all[k], path@) == Some(true));
            }
            if excludes(all, path@) {
                let k = choose|k: int| 0 <= k < all.len() && glob_matches(#[trigger] all[k], path@) == Some(true);
                assert(is_plain(all[k]));
                assert(found@[k] == Some(true));
            }
        }
    }
    any_match(&found)
}

} // verus!
