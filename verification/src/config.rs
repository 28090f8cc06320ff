//! Model configuration: which provider serves which model name, and the
//! lookup the dispatcher performs. Reading the configuration file and
//! parsing TOML happen outside the library; the library receives plain
//! values.

use vstd::prelude::*;
use vstd::string::*;

use crate::service::GatewayError;
use crate::text::str_eq;

verus! {

/// An upstream provider this gateway can speak to.
#[derive(PartialEq, Eq, Structural, Clone, Copy, Debug)]
pub enum ProviderName {
    Zhipu,
    DeepSeek,
    Xinference,
}

/// Whether `c` spells the lower-case letter `l`, case-insensitively; `l` is
/// a lower-case ASCII letter in every use below.
pub open spec fn spells_lower(c: char, l: char) -> bool {
    c == l || ((c as u32) + 32 == (l as u32) && 'a' <= l && l <= 'z')
}

/// Whether `s` spells `lower` (a lower-case ASCII word), ignoring ASCII
/// case.
pub open spec fn spells_word(s: Seq<char>, lower: Seq<char>) -> bool {
    s.len() == lower.len() && forall|i: int| 0 <= i < s.len() ==> spells_lower(
        #[trigger] s[i],
        lower[i],
    )
}

/// The provider a name denotes, ignoring ASCII case; `None` for anything
/// unknown.
pub open spec fn provider_of(s: Seq<char>) -> Option<ProviderName> {
    if spells_word(s, "zhipu"@) {
        Some(ProviderName::Zhipu)
    } else if spells_word(s, "deepseek"@) {
        Some(ProviderName::DeepSeek)
    } else if spells_word(s, "xinference"@) {
        Some(ProviderName::Xinference)
    } else {
        None
    }
}

/// Whether `s` spells `lower`, ignoring ASCII case, as executable code.
fn str_spells_word(s: &str, lower: &str) -> (r: bool)
    ensures
        r == spells_word(s@, lower@),
{
    let ns = s.unicode_len();
    let nl = lower.unicode_len();
    if ns != nl {
        return false;
    }
    let mut i: usize = 0;
    while i < ns
        invariant
            ns == s@.len(),
            ns == lower@.len(),
            i <= ns,
            forall|j: int| 0 <= j < i ==> spells_lower(#[trigger] s@[j], lower@[j]),
        decreases ns - i,
    {
        let c = s.get_char(i);
        let l = lower.get_char(i);
        if !(c == l || ((c as u32) + 32 == (l as u32) && 'a' <= l && l <= 'z')) {
            return false;
        }
        i = i + 1;
    }
    true
}

impl ProviderName {
    /// Parses a provider name, ignoring ASCII case; an unknown name is a
    /// configuration error.
    pub fn from_str(s: &str) -> (r: Result<ProviderName, GatewayError>)
        ensures
            match r {
                Ok(p) => provider_of(s@) == Some(p),
                Err(e) => provider_of(s@) is None && e == GatewayError::InvalidProviderName,
            },
    {
        if str_spells_word(s, "zhipu") {
            Ok(ProviderName::Zhipu)
        } else if str_spells_word(s, "deepseek") {
            Ok(ProviderName::DeepSeek)
        } else if str_spells_word(s, "xinference") {
            Ok(ProviderName::Xinference)
        } else {
            Err(GatewayError::InvalidProviderName)
        }
    }

    /// The canonical lower-case spelling of the provider name.
    pub open spec fn name_spec(&self) -> Seq<char> {
        match self {
            ProviderName::Zhipu => "zhipu"@,
            ProviderName::DeepSeek => "deepseek"@,
            ProviderName::Xinference => "xinference"@,
        }
    }

    /// The canonical lower-case spelling, as executable code.
    pub fn name_str(&self) -> (r: String)
        ensures
            r@ == self.name_spec(),
    {
        match self {
            ProviderName::Zhipu => String::from_str("zhipu"),
            ProviderName::DeepSeek => String::from_str("deepseek"),
            ProviderName::Xinference => String::from_str("xinference"),
        }
    }
}

/// The provider coordinates a model resolves to.
#[derive(Debug, Clone)]
pub struct Provider {
    pub name: ProviderName,
    pub api_key: String,
    pub url: String,
}

/// One configured model: its name and the provider serving it.
#[derive(Debug, Clone)]
pub struct Model {
    pub model_name: String,
    pub provider: ProviderName,
    pub api_key: String,
    pub url: String,
}

/// The configuration entry for one model as the configuration file gives
/// it, before resolution; absent fields fall back to defaults.
#[derive(Debug, Clone)]
pub struct ModelConfig {
    pub provider: Option<String>,
    pub url: Option<String>,
    pub api_key: Option<String>,
}

/// The first configured model of a given name, if any.
pub open spec fn find_model(models: Seq<Model>, name: Seq<char>) -> Option<Model>
    decreases models.len(),
{
    if models.len() == 0 {
        None
    } else if models[0].model_name@ == name {
        Some(models[0])
    } else {
        find_model(models.skip(1), name)
    }
}

/// The gateway's model table, looked up by model name on every request.
#[derive(Debug)]
pub struct Config {
    models: Vec<Model>,
}

impl Config {
    /// The configured models, in order.
    pub closed spec fn models_view(&self) -> Seq<Model> {
        self.models@
    }

    /// A configuration holding exactly the given models.
    pub fn new(models: Vec<Model>) -> (c: Config)
        ensures
            c.models_view() == models@,
    {
        Config { models }
    }

    /// Looks up the first model of the given name.
    pub fn get_model(&self, name: &str) -> (r: Option<&Model>)
        ensures
            match r {
                Some(m) => find_model(self.models_view(), name@) == Some(*m),
                None => find_model(self.models_view(), name@) is None,
            },
    {
        let n = self.models.len();
        let mut i: usize = 0;
        assert(self.models@.skip(0) =~= self.models@);
        while i < n
            invariant
                n == self.models@.len(),
                i <= n,
                find_model(self.models@, name@) == find_model(self.models@.skip(i as int), name@),
            decreases n - i,
        {
            proof {
                assert(self.models@.skip(i as int)[0] == self.models@[i as int]);
                assert(self.models@.skip(i as int).skip(1) =~= self.models@.skip(i + 1));
            }
            if str_eq(self.models[i].model_name.as_str(), name) {
                return Some(&self.models[i]);
            }
            i = i + 1;
        }
        proof {
            assert(self.models@.skip(n as int) =~= Seq::<Model>::empty());
        }
        None
    }

    /// The full model table.
    pub fn models(&self) -> (r: &Vec<Model>)
        ensures
            r@ == self.models_view(),
    {
        &self.models
    }

    /// Whether a model of the given name is configured.
    pub fn contains_model(&self, model_name: &str) -> (r: bool)
        ensures
            r == (find_model(self.models_view(), model_name@) is Some),
    {
        self.get_model(model_name).is_some()
    }
}

} // verus!
