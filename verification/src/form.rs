//! The form in which a model is connected.
use crate::blocks::smaller;
use crate::models::{
    LOGIN_PROVIDERS, context_defaults, defaults, get_provider_models, known_models, needs_base_url,
    provider_context_defaults, provider_defaults, provider_needs_base_url,
};
use crate::text::{
    blank, cat2, cat3, chars_of, contains, contains_text, copy_texts, decimal, decimal_string,
    is_blank, is_digit, keep_digits, lowered, no_texts, occurs, opt_text, parse_unsigned, parsed,
    push_text, remove_char, same, starts, starts_with, string_of, texts, to_ascii_lowercase, trim,
    trimmed,
};
use vstd::prelude::*;

verus! {

#[derive(Clone, Copy, PartialEq, Eq, Structural, Debug)]
pub enum SettingsField {
    Provider,
    ApiKey,
    Model,
    BaseUrl,
    Reasoning,
    ContextWindow,
    Compaction,
}

/// A model and how it is reached.
pub struct ModelConfig {
    pub provider: String,
    pub api_key: String,
    pub model: String,
    pub base_url: String,
    pub reasoning_effort: Option<String>,
    pub context_window: u64,
    pub compact_at_pct: u8,
}

pub ghost struct Setup {
    pub provider: Seq<char>,
    pub api_key: Seq<char>,
    pub model: Seq<char>,
    pub base_url: Seq<char>,
    pub reasoning_effort: Option<Seq<char>>,
    pub context_window: u64,
    pub compact_at_pct: u8,
}

impl View for ModelConfig {
    type V = Setup;

    open spec fn view(&self) -> Setup {
        Setup {
            provider: self.provider@,
            api_key: self.api_key@,
            model: self.model@,
            base_url: self.base_url@,
            reasoning_effort: opt_text(self.reasoning_effort),
            context_window: self.context_window,
            compact_at_pct: self.compact_at_pct,
        }
    }
}

pub fn copy_opt(s: &Option<String>) -> (r: Option<String>)
    ensures
        opt_text(r) == opt_text(*s),
{
    match s {
        Some(t) => Some(t.clone()),
        None => None,
    }
}

impl Clone for ModelConfig {
    fn clone(&self) -> (r: ModelConfig)
        ensures
            r@ == self@,
    {
        ModelConfig {
            provider: self.provider.clone(),
            api_key: self.api_key.clone(),
            model: self.model.clone(),
            base_url: self.base_url.clone(),
            reasoning_effort: copy_opt(&self.reasoning_effort),
            context_window: self.context_window,
            compact_at_pct: self.compact_at_pct,
        }
    }
}

/// What is entered.
pub struct Form {
    pub provider: String,
    pub api_key: String,
    pub model: String,
    pub base_url: String,
    pub reasoning_effort: Option<String>,
    pub context_window: String,
    pub compact_at_pct: String,
    pub focus: SettingsField,
    /// The models that the provider listed.
    pub fetched: Option<Vec<String>>,
    pub fetch_status: String,
    /// The models of `anthropic` that are known beforehand, the preset one first.
    pub anthropic_models: Vec<String>,
}

pub ghost struct Entry {
    pub provider: Seq<char>,
    pub api_key: Seq<char>,
    pub model: Seq<char>,
    pub base_url: Seq<char>,
    pub reasoning_effort: Option<Seq<char>>,
    pub context_window: Seq<char>,
    pub compact_at_pct: Seq<char>,
    pub focus: SettingsField,
    pub fetched: Option<Seq<Seq<char>>>,
    pub fetch_status: Seq<char>,
    pub anthropic_models: Seq<Seq<char>>,
}

pub open spec fn opt_texts(v: Option<Vec<String>>) -> Option<Seq<Seq<char>>> {
    match v {
        Some(l) => Some(texts(l@)),
        None => None,
    }
}

impl View for Form {
    type V = Entry;

    open spec fn view(&self) -> Entry {
        Entry {
            provider: self.provider@,
            api_key: self.api_key@,
            model: self.model@,
            base_url: self.base_url@,
            reasoning_effort: opt_text(self.reasoning_effort),
            context_window: self.context_window@,
            compact_at_pct: self.compact_at_pct@,
            focus: self.focus,
            fetched: opt_texts(self.fetched),
            fetch_status: self.fetch_status@,
            anthropic_models: texts(self.anthropic_models@),
        }
    }
}

// ---------------------------------------------------------------------------
// Filling in
// ---------------------------------------------------------------------------

/// The form for a configuration.
pub open spec fn entry_for(s: Setup, anthropic_models: Seq<Seq<char>>) -> Entry {
    Entry {
        provider: s.provider,
        api_key: s.api_key,
        model: s.model,
        base_url: s.base_url,
        reasoning_effort: s.reasoning_effort,
        context_window: decimal(s.context_window as nat),
        compact_at_pct: decimal(s.compact_at_pct as nat),
        focus: SettingsField::Provider,
        fetched: None,
        fetch_status: ""@,
        anthropic_models,
    }
}

/// The form for the configuration in use: some effort is always chosen.
pub open spec fn entry_in_use(s: Setup, anthropic_models: Seq<Seq<char>>) -> Entry {
    Entry {
        reasoning_effort: match s.reasoning_effort {
            Some(e) => Some(e),
            None => Some("medium"@),
        },
        ..entry_for(s, anthropic_models)
    }
}

/// The form for a new configuration.
pub open spec fn entry_for_new(anthropic_models: Seq<Seq<char>>) -> Entry {
    let (base_url, model) = defaults("openai"@, anthropic_models);
    let (window, pct) = context_defaults("openai"@);
    Entry {
        provider: "openai"@,
        api_key: ""@,
        model,
        base_url,
        reasoning_effort: Some("medium"@),
        context_window: decimal(window as nat),
        compact_at_pct: decimal(pct as nat),
        focus: SettingsField::Provider,
        fetched: None,
        fetch_status: ""@,
        anthropic_models,
    }
}

impl Form {
    pub fn of(cfg: &ModelConfig, anthropic_models: &Vec<String>) -> (r: Form)
        ensures
            r@ == entry_for(cfg@, texts(anthropic_models@)),
    {
        Form {
            provider: cfg.provider.clone(),
            api_key: cfg.api_key.clone(),
            model: cfg.model.clone(),
            base_url: cfg.base_url.clone(),
            reasoning_effort: copy_opt(&cfg.reasoning_effort),
            context_window: decimal_string(cfg.context_window),
            compact_at_pct: decimal_string(cfg.compact_at_pct as u64),
            focus: SettingsField::Provider,
            fetched: None,
            fetch_status: "".to_string(),
            anthropic_models: copy_texts(anthropic_models),
        }
    }

    /// The form for the configuration in use.
    pub fn in_use(cfg: &ModelConfig, anthropic_models: &Vec<String>) -> (r: Form)
        ensures
            r@ == entry_in_use(cfg@, texts(anthropic_models@)),
    {
        let mut form = Form::of(cfg, anthropic_models);
        if form.reasoning_effort.is_none() {
            form.reasoning_effort = Some("medium".to_string());
        }
        form
    }

    /// The form for a new configuration.
    pub fn fresh(anthropic_models: &Vec<String>) -> (r: Form)
        ensures
            r@ == entry_for_new(texts(anthropic_models@)),
    {
        let (base_url, model) = provider_defaults("openai", anthropic_models);
        let (window, pct) = provider_context_defaults("openai");
        Form {
            provider: "openai".to_string(),
            api_key: "".to_string(),
            model,
            base_url,
            reasoning_effort: Some("medium".to_string()),
            context_window: decimal_string(window),
            compact_at_pct: decimal_string(pct as u64),
            focus: SettingsField::Provider,
            fetched: None,
            fetch_status: "".to_string(),
            anthropic_models: copy_texts(anthropic_models),
        }
    }
}

// ---------------------------------------------------------------------------
// Moving between the fields
// ---------------------------------------------------------------------------

/// The fields in order. An account needs no key, and only some providers need an
/// endpoint.
pub open spec fn field_order(provider: Seq<char>) -> Seq<SettingsField> {
    if provider == "chatgpt"@ {
        seq![
            SettingsField::Provider,
            SettingsField::Model,
            SettingsField::Reasoning,
            SettingsField::ContextWindow,
            SettingsField::Compaction,
        ]
    } else {
        seq![SettingsField::Provider, SettingsField::ApiKey] + (if needs_base_url(provider) {
            seq![SettingsField::BaseUrl]
        } else {
            Seq::empty()
        }) + seq![
            SettingsField::Model,
            SettingsField::Reasoning,
            SettingsField::ContextWindow,
            SettingsField::Compaction,
        ]
    }
}

/// The next position of `n` in a circle, or the one before.
pub open spec fn turned_by_one(i: nat, n: nat, forward: bool) -> nat {
    if forward {
        (i + 1) % n
    } else if i == 0 {
        (n - 1) as nat
    } else {
        (i - 1) as nat
    }
}

pub fn turn_by_one(i: usize, n: usize, forward: bool) -> (r: usize)
    requires
        i < n,
    ensures
        r == turned_by_one(i as nat, n as nat, forward),
        r < n,
{
    if forward {
        if i + 1 == n {
            proof {
                vstd::arithmetic::div_mod::lemma_mod_self_0(n as int);
            }
            0
        } else {
            proof {
                vstd::arithmetic::div_mod::lemma_small_mod((i + 1) as nat, n as nat);
            }
            i + 1
        }
    } else if i == 0 {
        n - 1
    } else {
        i - 1
    }
}

/// The first position of a field, zero where it is not there.
pub open spec fn field_at(order: Seq<SettingsField>, f: SettingsField) -> nat
    decreases order.len(),
{
    if order.len() == 0 {
        0
    } else if order[0] == f {
        0
    } else if order.contains(f) {
        1 + field_at(order.skip(1), f)
    } else {
        0
    }
}

/// The focus goes to the next field or the one before.
pub open spec fn focus_moved(e: Entry, forward: bool) -> Entry {
    let order = field_order(e.provider);
    let i = turned_by_one(field_at(order, e.focus), order.len(), forward);
    Entry { focus: order[i as int], ..e }
}

/// The list of models can be asked for: there is a key, or an endpoint that may
/// need none.
pub open spec fn can_fetch(e: Entry) -> bool {
    !blank(e.api_key) || (needs_base_url(e.provider) && !blank(e.base_url))
}

/// The list of models is asked for on arriving at the model.
pub open spec fn wants_models(e: Entry) -> bool {
    e.focus == SettingsField::Model && e.fetched is None && can_fetch(e)
}

pub open spec fn fetching(e: Entry) -> Entry {
    Entry { fetched: None, fetch_status: "Fetching available models from provider..."@, ..e }
}

impl Form {
    /// The fields in order.
    pub fn focus_order(&self) -> (r: Vec<SettingsField>)
        ensures
            r@ == field_order(self@.provider),
            r@.len() > 0,
    {
        let mut order: Vec<SettingsField> = Vec::new();
        order.push(SettingsField::Provider);
        if same(self.provider.as_str(), "chatgpt") {
            order.push(SettingsField::Model);
            order.push(SettingsField::Reasoning);
            order.push(SettingsField::ContextWindow);
            order.push(SettingsField::Compaction);
            assert(order@ =~= field_order(self@.provider));
            return order;
        }
        order.push(SettingsField::ApiKey);
        if provider_needs_base_url(self.provider.as_str()) {
            order.push(SettingsField::BaseUrl);
        }
        order.push(SettingsField::Model);
        order.push(SettingsField::Reasoning);
        order.push(SettingsField::ContextWindow);
        order.push(SettingsField::Compaction);
        assert(order@ =~= field_order(self@.provider));
        order
    }

    fn start_fetch(&mut self)
        ensures
            final(self)@ == fetching(old(self)@),
    {
        self.fetched = None;
        self.fetch_status = "Fetching available models from provider...".to_string();
    }

    /// Moves the focus. Says whether the list of models is asked for now.
    pub fn move_focus(&mut self, forward: bool) -> (r: bool)
        ensures
            ({
                let moved = focus_moved(old(self)@, forward);
                &&& r == wants_models(moved)
                &&& final(self)@ == if r {
                    fetching(moved)
                } else {
                    moved
                }
            }),
    {
        let order = self.focus_order();
        let i = position_of(&order, self.focus);
        let next = turn_by_one(i, order.len(), forward);
        self.focus = order[next];
        let can = !is_blank(self.api_key.as_str()) || (provider_needs_base_url(
            self.provider.as_str(),
        ) && !is_blank(self.base_url.as_str()));
        if self.focus == SettingsField::Model && self.fetched.is_none() && can {
            self.start_fetch();
            true
        } else {
            false
        }
    }
}

fn position_of(order: &Vec<SettingsField>, f: SettingsField) -> (r: usize)
    requires
        order.len() > 0,
    ensures
        r == field_at(order@, f),
        r < order.len(),
{
    let mut i: usize = 0;
    assert(order@.skip(0) =~= order@);
    while i < order.len() && order[i] != f
        invariant
            i <= order.len(),
            forall|k: int| 0 <= k < i ==> #[trigger] order@[k] != f,
            order@.contains(f) ==> field_at(order@, f) == i + field_at(order@.skip(i as int), f),
        decreases order.len() - i,
    {
        proof {
            let rest = order@.skip(i as int);
            assert(rest[0] == order@[i as int]);
            assert(rest.skip(1) =~= order@.skip(i + 1));
            if order@.contains(f) {
                let k = choose|k: int| 0 <= k < order@.len() && order@[k] == f;
                assert(rest[k - i] == f);
            }
        }
        i += 1;
    }
    if i < order.len() {
        assert(order@[i as int] == f);
        assert(order@.skip(i as int)[0] == f);
        i
    } else {
        assert(!order@.contains(f));
        0
    }
}

// ---------------------------------------------------------------------------
// Changing a field
// ---------------------------------------------------------------------------

pub const EFFORTS: [&'static str; 5] = ["off", "low", "medium", "high", "xhigh"];

/// The position of an effort among the five, the middle one where it is none.
pub open spec fn effort_at(s: Seq<char>) -> nat {
    if s == EFFORTS@[0]@ {
        0
    } else if s == EFFORTS@[1]@ {
        1
    } else if s == EFFORTS@[2]@ {
        2
    } else if s == EFFORTS@[3]@ {
        3
    } else if s == EFFORTS@[4]@ {
        4
    } else {
        2
    }
}

pub open spec fn effort_turned(e: Entry, forward: bool) -> Entry {
    let now = match e.reasoning_effort {
        Some(s) => lowered(s),
        None => lowered("medium"@),
    };
    let i = turned_by_one(effort_at(now), 5, forward);
    Entry { reasoning_effort: Some(EFFORTS@[i as int]@), ..e }
}

/// A number between fifty and ninety-five.
pub open spec fn clamped(n: nat) -> nat {
    if n < 50 {
        50
    } else if n > 95 {
        95
    } else {
        n
    }
}

/// The percentage that is entered, eighty-five where none is.
pub open spec fn pct_entered(e: Entry) -> nat {
    match parsed(trimmed(e.compact_at_pct), 255) {
        Some(n) => clamped(n),
        None => 85,
    }
}

pub open spec fn pct_turned(e: Entry, forward: bool) -> Entry {
    let n = pct_entered(e);
    Entry {
        compact_at_pct: decimal(
            if forward {
                clamped(n + 5)
            } else {
                clamped((n - 5) as nat)
            },
        ),
        ..e
    }
}

/// The models to choose from: those that were fetched, else those that are known.
pub open spec fn candidates(e: Entry) -> Seq<Seq<char>> {
    match e.fetched {
        Some(l) => l,
        None => known_models(e.provider, e.anthropic_models),
    }
}

/// The first position of a text in a list.
pub open spec fn text_at_in(list: Seq<Seq<char>>, s: Seq<char>, i: int) -> bool {
    &&& 0 <= i < list.len()
    &&& list[i] == s
    &&& forall|k: int| 0 <= k < i ==> #[trigger] list[k] != s
}

/// The next model of the list, or the one before; the first where the present one
/// is not in it.
pub open spec fn model_turned(e: Entry, forward: bool) -> Entry {
    let all = candidates(e);
    if all.len() == 0 {
        e
    } else if all.contains(e.model) {
        let i = choose|i: int| text_at_in(all, e.model, i);
        Entry { model: all[turned_by_one(i as nat, all.len(), forward) as int], ..e }
    } else {
        Entry { model: all[0], ..e }
    }
}

/// The position of a provider among those on offer, the first where it is none.
pub open spec fn provider_at(p: Seq<char>) -> nat {
    if p == LOGIN_PROVIDERS@[1]@ {
        1
    } else if p == LOGIN_PROVIDERS@[2]@ {
        2
    } else if p == LOGIN_PROVIDERS@[3]@ {
        3
    } else if p == LOGIN_PROVIDERS@[4]@ {
        4
    } else if p == LOGIN_PROVIDERS@[5]@ {
        5
    } else if p == LOGIN_PROVIDERS@[6]@ {
        6
    } else {
        0
    }
}

/// Another provider with what is preset for it. The effort stays, and a list of
/// models no longer applies.
pub open spec fn provider_turned(e: Entry, forward: bool) -> Entry {
    let p = LOGIN_PROVIDERS@[turned_by_one(provider_at(e.provider), 7, forward) as int]@;
    let (base_url, model) = defaults(p, e.anthropic_models);
    let (window, pct) = context_defaults(p);
    Entry {
        provider: p,
        base_url,
        model,
        context_window: decimal(window as nat),
        compact_at_pct: decimal(pct as nat),
        reasoning_effort: match e.reasoning_effort {
            Some(r) => Some(r),
            None => Some("medium"@),
        },
        fetched: None,
        ..e
    }
}

pub open spec fn adjusted(e: Entry, forward: bool) -> Entry {
    match e.focus {
        SettingsField::Provider => provider_turned(e, forward),
        SettingsField::Model => model_turned(e, forward),
        SettingsField::Reasoning => effort_turned(e, forward),
        SettingsField::Compaction => pct_turned(e, forward),
        _ => e,
    }
}

/// A text at the end of the focused field. Numbers take digits only.
pub open spec fn typed(e: Entry, s: Seq<char>) -> Entry {
    let digits = s.filter(|c: char| is_digit(c));
    match e.focus {
        SettingsField::ApiKey => Entry { api_key: e.api_key + s, ..e },
        SettingsField::BaseUrl => Entry { base_url: e.base_url + s, ..e },
        SettingsField::Model => Entry { model: e.model + s, ..e },
        SettingsField::ContextWindow => Entry { context_window: e.context_window + digits, ..e },
        SettingsField::Compaction => Entry { compact_at_pct: e.compact_at_pct + digits, ..e },
        _ => e,
    }
}

/// A pasted text without line ends and without white space around it.
pub open spec fn one_line_paste(s: Seq<char>) -> Seq<char> {
    trimmed(s.filter(|c: char| c != '\n').filter(|c: char| c != '\r'))
}

pub open spec fn shortened(s: Seq<char>) -> Seq<char> {
    if s.len() == 0 {
        s
    } else {
        s.drop_last()
    }
}

/// The last character of the focused field goes.
pub open spec fn field_shortened(e: Entry) -> Entry {
    match e.focus {
        SettingsField::ApiKey => Entry { api_key: shortened(e.api_key), ..e },
        SettingsField::BaseUrl => Entry { base_url: shortened(e.base_url), ..e },
        SettingsField::Model => Entry { model: shortened(e.model), ..e },
        SettingsField::ContextWindow => Entry { context_window: shortened(e.context_window), ..e },
        SettingsField::Compaction => Entry { compact_at_pct: shortened(e.compact_at_pct), ..e },
        _ => e,
    }
}

fn find_effort(s: &str) -> (r: usize)
    ensures
        r == effort_at(s@),
        r < 5,
{
    if same(s, EFFORTS[0]) {
        0
    } else if same(s, EFFORTS[1]) {
        1
    } else if same(s, EFFORTS[2]) {
        2
    } else if same(s, EFFORTS[3]) {
        3
    } else if same(s, EFFORTS[4]) {
        4
    } else {
        2
    }
}

fn find_provider(s: &str) -> (r: usize)
    ensures
        r == provider_at(s@),
        r < 7,
{
    if same(s, LOGIN_PROVIDERS[1]) {
        1
    } else if same(s, LOGIN_PROVIDERS[2]) {
        2
    } else if same(s, LOGIN_PROVIDERS[3]) {
        3
    } else if same(s, LOGIN_PROVIDERS[4]) {
        4
    } else if same(s, LOGIN_PROVIDERS[5]) {
        5
    } else if same(s, LOGIN_PROVIDERS[6]) {
        6
    } else {
        0
    }
}

fn drop_last_char(s: &String) -> (r: String)
    ensures
        r@ == shortened(s@),
{
    let v = chars_of(s.as_str());
    if v.len() == 0 {
        return s.clone();
    }
    let r = string_of(&v, 0, v.len() - 1);
    assert(r@ =~= s@.drop_last());
    r
}

fn find_text(list: &Vec<String>, s: &str) -> (r: Option<usize>)
    ensures
        match r {
            Some(i) => text_at_in(texts(list@), s@, i as int),
            None => !texts(list@).contains(s@),
        },
{
    let ghost all = texts(list@);
    for i in 0..list.len()
        invariant
            all == texts(list@),
            forall|k: int| 0 <= k < i ==> #[trigger] all[k] != s@,
    {
        assert(all[i as int] == list@[i as int]@);
        if same(list[i].as_str(), s) {
            return Some(i);
        }
    }
    None
}

proof fn lemma_text_at_unique(list: Seq<Seq<char>>, s: Seq<char>, i: int, j: int)
    requires
        text_at_in(list, s, i),
        text_at_in(list, s, j),
    ensures
        i == j,
{
    if i < j {
        assert(list[i] != s);
    } else if j < i {
        assert(list[j] != s);
    }
}

impl Form {
    /// The models to choose from.
    pub fn candidate_list(&self) -> (r: Vec<String>)
        ensures
            texts(r@) == candidates(self@),
    {
        match &self.fetched {
            Some(l) => copy_texts(l),
            None => get_provider_models(self.provider.as_str(), &self.anthropic_models),
        }
    }

    fn cycle_reasoning(&mut self, forward: bool)
        ensures
            final(self)@ == effort_turned(old(self)@, forward),
    {
        let now = match &self.reasoning_effort {
            Some(s) => to_ascii_lowercase(s.as_str()),
            None => to_ascii_lowercase("medium"),
        };
        let i = turn_by_one(find_effort(now.as_str()), 5, forward);
        self.reasoning_effort = Some(EFFORTS[i].to_string());
    }

    fn cycle_compaction_pct(&mut self, forward: bool)
        ensures
            final(self)@ == pct_turned(old(self)@, forward),
    {
        let t = trim(self.compact_at_pct.as_str());
        let n: u64 = match parse_unsigned(t.as_str(), 255) {
            Some(n) => if n < 50 {
                50
            } else if n > 95 {
                95
            } else {
                n
            },
            None => 85,
        };
        let next: u64 = if forward {
            if n + 5 > 95 {
                95
            } else {
                n + 5
            }
        } else if n - 5 < 50 {
            50
        } else {
            n - 5
        };
        self.compact_at_pct = decimal_string(next);
    }

    fn cycle_model(&mut self, forward: bool)
        ensures
            final(self)@ == model_turned(old(self)@, forward),
    {
        let all = self.candidate_list();
        let ghost list = texts(all@);
        assert(list.len() == all@.len());
        if all.len() == 0 {
            return;
        }
        let next: usize = match find_text(&all, self.model.as_str()) {
            Some(i) => {
                proof {
                    assert(list.contains(self@.model));
                    let j = choose|j: int| text_at_in(list, self@.model, j);
                    lemma_text_at_unique(list, self@.model, i as int, j);
                }
                turn_by_one(i, all.len(), forward)
            },
            None => 0,
        };
        assert(list[next as int] == all@[next as int]@);
        self.model = all[next].clone();
    }

    fn change_provider(&mut self, forward: bool)
        ensures
            final(self)@ == provider_turned(old(self)@, forward),
    {
        let i = turn_by_one(find_provider(self.provider.as_str()), 7, forward);
        let p = LOGIN_PROVIDERS[i];
        let (base_url, model) = provider_defaults(p, &self.anthropic_models);
        let (window, pct) = provider_context_defaults(p);
        self.provider = p.to_string();
        self.base_url = base_url;
        self.model = model;
        self.context_window = decimal_string(window);
        self.compact_at_pct = decimal_string(pct as u64);
        if self.reasoning_effort.is_none() {
            self.reasoning_effort = Some("medium".to_string());
        }
        self.fetched = None;
    }

    /// Changes the focused field to the next value or the one before.
    pub fn adjust(&mut self, forward: bool)
        ensures
            final(self)@ == adjusted(old(self)@, forward),
    {
        match self.focus {
            SettingsField::Provider => self.change_provider(forward),
            SettingsField::Model => self.cycle_model(forward),
            SettingsField::Reasoning => self.cycle_reasoning(forward),
            SettingsField::Compaction => self.cycle_compaction_pct(forward),
            _ => {},
        }
    }

    /// Adds a text to the focused field.
    fn type_text(&mut self, s: &str)
        ensures
            final(self)@ == typed(old(self)@, s@),
    {
        match self.focus {
            SettingsField::ApiKey => {
                self.api_key = cat2(self.api_key.as_str(), s);
            },
            SettingsField::BaseUrl => {
                self.base_url = cat2(self.base_url.as_str(), s);
            },
            SettingsField::Model => {
                self.model = cat2(self.model.as_str(), s);
            },
            SettingsField::ContextWindow => {
                let digits = keep_digits(s);
                self.context_window = cat2(self.context_window.as_str(), digits.as_str());
            },
            SettingsField::Compaction => {
                let digits = keep_digits(s);
                self.compact_at_pct = cat2(self.compact_at_pct.as_str(), digits.as_str());
            },
            _ => {},
        }
    }

    /// Types a character into the focused field.
    pub fn edit_char(&mut self, c: char)
        ensures
            final(self)@ == typed(old(self)@, seq![c]),
    {
        let mut s = String::new();
        s.push(c);
        assert(s@ =~= seq![c]);
        self.type_text(s.as_str());
    }

    /// Pastes into the focused field.
    pub fn paste(&mut self, text: &str)
        ensures
            final(self)@ == if one_line_paste(text@).len() == 0 {
                old(self)@
            } else {
                typed(old(self)@, one_line_paste(text@))
            },
    {
        let a = remove_char(text, '\n');
        let b = remove_char(a.as_str(), '\r');
        let t = trim(b.as_str());
        if !t.as_str().is_empty() {
            self.type_text(t.as_str());
        }
    }

    pub fn backspace(&mut self)
        ensures
            final(self)@ == field_shortened(old(self)@),
    {
        match self.focus {
            SettingsField::ApiKey => {
                self.api_key = drop_last_char(&self.api_key);
            },
            SettingsField::BaseUrl => {
                self.base_url = drop_last_char(&self.base_url);
            },
            SettingsField::Model => {
                self.model = drop_last_char(&self.model);
            },
            SettingsField::ContextWindow => {
                self.context_window = drop_last_char(&self.context_window);
            },
            SettingsField::Compaction => {
                self.compact_at_pct = drop_last_char(&self.compact_at_pct);
            },
            _ => {},
        }
    }
}

// ---------------------------------------------------------------------------
// Suggestions
// ---------------------------------------------------------------------------

/// How many suggestions are shown.
pub const SUGGESTED: usize = 6;

/// Models that match what is typed: those that begin with it, and the others.
pub ghost struct Ranked {
    pub prefix: Seq<Seq<char>>,
    pub others: Seq<Seq<char>>,
}

pub open spec fn ranks(r: Ranked, m: Seq<char>) -> bool {
    r.prefix.contains(m) || r.others.contains(m)
}

/// The models that match, each once, in the order of the list.
pub open spec fn ranked(list: Seq<Seq<char>>, query: Seq<char>) -> Ranked
    decreases list.len(),
{
    if list.len() == 0 {
        Ranked { prefix: Seq::empty(), others: Seq::empty() }
    } else {
        let r = ranked(list.drop_last(), query);
        let m = list.last();
        let low = lowered(m);
        if ranks(r, m) || !(query.len() == 0 || occurs(low, query)) {
            r
        } else if query.len() > 0 && starts(low, query) {
            Ranked { prefix: r.prefix.push(m), ..r }
        } else {
            Ranked { others: r.others.push(m), ..r }
        }
    }
}

/// The suggestions: what is typed, where it is none of the models, then the
/// models that begin with it, then the others that match.
pub open spec fn suggested_models(e: Entry) -> Seq<Seq<char>> {
    let r = ranked(candidates(e), lowered(trimmed(e.model)));
    let now = trimmed(e.model);
    let first = if now.len() > 0 && !ranks(r, now) {
        seq![now]
    } else {
        Seq::empty()
    };
    let all = first + r.prefix + r.others;
    all.take(smaller(all.len(), SUGGESTED as nat) as int)
}

impl Form {
    /// The suggestions for the model that is typed.
    pub fn model_rows(&self) -> (r: Vec<String>)
        ensures
            texts(r@) == suggested_models(self@),
    {
        let all = self.candidate_list();
        let ghost list = texts(all@);
        let now = trim(self.model.as_str());
        let query = to_ascii_lowercase(now.as_str());
        let none = query.as_str().is_empty();
        let mut prefix = no_texts();
        let mut others = no_texts();
        for i in 0..all.len()
            invariant
                list == texts(all@),
                none == (query@.len() == 0),
                ranked(list.take(i as int), query@) == (Ranked {
                    prefix: texts(prefix@),
                    others: texts(others@),
                }),
        {
            proof {
                assert(list.take(i + 1).drop_last() =~= list.take(i as int));
                assert(list.take(i + 1).last() == all@[i as int]@);
            }
            let low = to_ascii_lowercase(all[i].as_str());
            let known = contains_text(&prefix, all[i].as_str()) || contains_text(
                &others,
                all[i].as_str(),
            );
            if !known && (none || contains(low.as_str(), query.as_str())) {
                if !none && starts_with(low.as_str(), query.as_str()) {
                    push_text(&mut prefix, all[i].clone());
                } else {
                    push_text(&mut others, all[i].clone());
                }
            }
        }
        assert(list.take(list.len() as int) =~= list);
        let mut out = no_texts();
        if !now.as_str().is_empty() && !contains_text(&prefix, now.as_str()) && !contains_text(
            &others,
            now.as_str(),
        ) {
            push_text(&mut out, now);
        }
        let ghost first = texts(out@);
        let ghost a = texts(prefix@);
        let ghost b = texts(others@);
        out.append(&mut prefix);
        out.append(&mut others);
        assert(texts(out@) =~= first + a + b);
        let ghost joined_all = texts(out@);
        if out.len() > SUGGESTED {
            out.truncate(SUGGESTED);
        }
        assert(joined_all =~= first + a + b);
        assert(texts(out@) =~= joined_all.take(
            smaller(joined_all.len(), SUGGESTED as nat) as int,
        ));
        out
    }
}

/// What is typed is suggested first where it is none of the models.
pub proof fn what_is_typed_is_suggested(e: Entry)
    requires
        trimmed(e.model).len() > 0,
        !candidates(e).contains(trimmed(e.model)),
    ensures
        suggested_models(e).len() > 0,
        suggested_models(e)[0] == trimmed(e.model),
{
    let now = trimmed(e.model);
    let query = lowered(now);
    ranked_models_are_distinct(candidates(e), query);
    assert(!ranks(ranked(candidates(e), query), now));
}

/// No model is suggested twice.
pub proof fn ranked_models_are_distinct(list: Seq<Seq<char>>, query: Seq<char>)
    ensures
        ({
            let r = ranked(list, query);
            (r.prefix + r.others).no_duplicates()
        }),
        forall|m: Seq<char>| #[trigger] ranks(ranked(list, query), m) ==> list.contains(m),
    decreases list.len(),
{
    let r = ranked(list, query);
    if list.len() > 0 {
        let rest = list.drop_last();
        let m = list.last();
        ranked_models_are_distinct(rest, query);
        let q = ranked(rest, query);
        let before = q.prefix + q.others;
        let after = r.prefix + r.others;
        assert forall|i: int, j: int|
            0 <= i < after.len() && 0 <= j < after.len() && i != j implies after[i] != after[j] by {
            if r.prefix.len() > q.prefix.len() {
                let k = q.prefix.len() as int;
                let a = if i < k {
                    i
                } else {
                    i - 1
                };
                let b = if j < k {
                    j
                } else {
                    j - 1
                };
                if i != k {
                    assert(after[i] == before[a]);
                    assert(q.prefix.contains(before[a]) || q.others.contains(before[a])) by {
                        if a < k {
                            assert(q.prefix[a] == before[a]);
                        } else {
                            assert(q.others[a - k] == before[a]);
                        }
                    }
                }
                if j != k {
                    assert(after[j] == before[b]);
                    assert(q.prefix.contains(before[b]) || q.others.contains(before[b])) by {
                        if b < k {
                            assert(q.prefix[b] == before[b]);
                        } else {
                            assert(q.others[b - k] == before[b]);
                        }
                    }
                }
            } else if r.others.len() > q.others.len() {
                let n = before.len() as int;
                let k = q.prefix.len() as int;
                if i < n {
                    assert(after[i] == before[i]);
                    if i < k {
                        assert(q.prefix[i] == before[i]);
                    } else {
                        assert(q.others[i - k] == before[i]);
                    }
                }
                if j < n {
                    assert(after[j] == before[j]);
                    if j < k {
                        assert(q.prefix[j] == before[j]);
                    } else {
                        assert(q.others[j - k] == before[j]);
                    }
                }
            }
        }
        assert forall|x: Seq<char>| #[trigger] ranks(r, x) implies list.contains(x) by {
            if x == m {
                assert(list[list.len() - 1] == m);
            } else {
                assert(ranks(q, x)) by {
                    if r.prefix.contains(x) {
                        let i = choose|i: int| 0 <= i < r.prefix.len() && r.prefix[i] == x;
                        assert(q.prefix[i] == x);
                    } else {
                        let i = choose|i: int| 0 <= i < r.others.len() && r.others[i] == x;
                        assert(q.others[i] == x);
                    }
                }
                let i = choose|i: int| 0 <= i < rest.len() && rest[i] == x;
                assert(list[i] == x);
            }
        }
    } else {
        assert forall|x: Seq<char>| #[trigger] ranks(r, x) implies list.contains(x) by {}
    }
}

// ---------------------------------------------------------------------------
// Connecting
// ---------------------------------------------------------------------------

/// The size of the context that is entered, where it is large enough, else the
/// preset one.
pub open spec fn window_of(e: Entry) -> u64 {
    match parsed(trimmed(e.context_window), u64::MAX as nat) {
        Some(n) => if n >= 8_000 {
            n as u64
        } else {
            context_defaults(e.provider).0
        },
        None => context_defaults(e.provider).0,
    }
}

/// The percentage that is entered, or the preset one, between fifty and
/// ninety-five.
pub open spec fn pct_of(e: Entry) -> u8 {
    clamped(
        match parsed(trimmed(e.compact_at_pct), 255) {
            Some(n) => n,
            None => context_defaults(e.provider).1 as nat,
        },
    ) as u8
}

/// What follows from asking to connect.
#[derive(Clone, Copy, PartialEq, Eq, Structural, Debug)]
pub enum Connect {
    /// An account signs in.
    SignIn,
    /// Something is missing.
    NeedKey,
    NeedModel,
    /// The configuration is saved with these limits.
    Save { context_window: u64, compact_at_pct: u8 },
}

pub open spec fn connecting(e: Entry) -> Connect {
    if e.provider == "chatgpt"@ {
        Connect::SignIn
    } else if blank(e.api_key) {
        Connect::NeedKey
    } else if blank(e.model) {
        Connect::NeedModel
    } else {
        Connect::Save { context_window: window_of(e), compact_at_pct: pct_of(e) }
    }
}

/// The focus goes to what is missing.
pub open spec fn focused_for(e: Entry, c: Connect) -> Entry {
    match c {
        Connect::NeedKey => Entry { focus: SettingsField::ApiKey, ..e },
        Connect::NeedModel => Entry { focus: SettingsField::Model, ..e },
        _ => e,
    }
}

/// The configuration that is entered.
pub open spec fn setup_of(e: Entry, context_window: u64, compact_at_pct: u8) -> Setup {
    Setup {
        provider: e.provider,
        api_key: e.api_key,
        model: e.model,
        base_url: e.base_url,
        reasoning_effort: match e.reasoning_effort {
            Some(r) => if blank(r) {
                None
            } else {
                Some(r)
            },
            None => None,
        },
        context_window,
        compact_at_pct,
    }
}

/// The form of an account that has signed in: a model is chosen, and neither a
/// key nor an endpoint is kept.
pub open spec fn signed_in_entry(e: Entry) -> Entry {
    Entry {
        model: if blank(e.model) {
            "gpt-5.1-codex"@
        } else {
            e.model
        },
        api_key: ""@,
        base_url: ""@,
        ..e
    }
}

/// The form after the provider answered with a list of models. A model is chosen
/// only where none is yet.
pub open spec fn models_loaded(e: Entry, list: Seq<Seq<char>>) -> Entry {
    Entry {
        model: if blank(e.model) && list.len() > 0 {
            list[0]
        } else {
            e.model
        },
        fetched: Some(list),
        fetch_status: "Loaded "@ + decimal(list.len()) + " models from provider."@,
        ..e
    }
}

impl Form {
    /// Checks what is entered. The focus goes to what is missing.
    pub fn check(&mut self) -> (r: Connect)
        ensures
            r == connecting(old(self)@),
            final(self)@ == focused_for(old(self)@, r),
    {
        if same(self.provider.as_str(), "chatgpt") {
            return Connect::SignIn;
        }
        if is_blank(self.api_key.as_str()) {
            self.focus = SettingsField::ApiKey;
            return Connect::NeedKey;
        }
        if is_blank(self.model.as_str()) {
            self.focus = SettingsField::Model;
            return Connect::NeedModel;
        }
        let (window, pct) = provider_context_defaults(self.provider.as_str());
        let w = trim(self.context_window.as_str());
        let context_window: u64 = match parse_unsigned(w.as_str(), u64::MAX) {
            Some(n) => if n >= 8_000 {
                n
            } else {
                window
            },
            None => window,
        };
        let p = trim(self.compact_at_pct.as_str());
        let n: u64 = match parse_unsigned(p.as_str(), 255) {
            Some(n) => n,
            None => pct as u64,
        };
        let compact_at_pct: u8 = if n < 50 {
            50
        } else if n > 95 {
            95
        } else {
            n as u8
        };
        Connect::Save { context_window, compact_at_pct }
    }

    /// The configuration that is entered.
    pub fn setup(&self, context_window: u64, compact_at_pct: u8) -> (r: ModelConfig)
        ensures
            r@ == setup_of(self@, context_window, compact_at_pct),
    {
        let reasoning_effort = match &self.reasoning_effort {
            Some(s) => if is_blank(s.as_str()) {
                None
            } else {
                Some(s.clone())
            },
            None => None,
        };
        ModelConfig {
            provider: self.provider.clone(),
            api_key: self.api_key.clone(),
            model: self.model.clone(),
            base_url: self.base_url.clone(),
            reasoning_effort,
            context_window,
            compact_at_pct,
        }
    }

    /// An account has signed in.
    pub fn sign_in(&mut self)
        ensures
            final(self)@ == signed_in_entry(old(self)@),
    {
        if is_blank(self.model.as_str()) {
            self.model = "gpt-5.1-codex".to_string();
        }
        self.api_key = "".to_string();
        self.base_url = "".to_string();
    }

    /// The provider answered with a list of models.
    pub fn load_models(&mut self, list: Vec<String>)
        ensures
            final(self)@ == models_loaded(old(self)@, texts(list@)),
    {
        assert(texts(list@).len() == list@.len());
        if is_blank(self.model.as_str()) && list.len() > 0 {
            assert(texts(list@)[0] == list@[0]@);
            self.model = list[0].clone();
        }
        let d = decimal_string(list.len() as u64);
        self.fetch_status = cat3("Loaded ", d.as_str(), " models from provider.");
        self.fetched = Some(list);
    }

    /// The provider did not answer with a list of models.
    pub fn fail_models(&mut self, error: &str, crashed: bool)
        ensures
            final(self)@ == (Entry {
                fetch_status: (if crashed {
                    "Fetch task crashed: "@
                } else {
                    "Fetch failed: "@
                }) + error@,
                ..old(self)@
            }),
    {
        if crashed {
            self.fetch_status = cat2("Fetch task crashed: ", error);
        } else {
            self.fetch_status = cat2("Fetch failed: ", error);
        }
    }
}

} // verus!
