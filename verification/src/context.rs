//! Which cluster the numbers on screen are about.
use crate::chars::{contains_chars, contains_seq, lowercase, to_chars, to_lower};
use crate::errors::MsgError;
use vstd::prelude::*;

verus! {

/// Environment a cluster belongs to. Drives the colour of the whole header, so that
/// production cannot be mistaken for staging out of the corner of an eye.
#[derive(Debug, Clone, Copy, PartialEq, Eq, Structural)]
pub enum Env {
    Prod,
    Stage,
    Dev,
}

/// The environment a context name says it belongs to, checked in this order so that
/// production wins whatever else the name mentions.
pub open spec fn env_of(context: Seq<char>) -> Option<Env> {
    let name = lowercase(context);
    if contains_seq(name, "prod"@) {
        Some(Env::Prod)
    } else if contains_seq(name, "stag"@) {
        Some(Env::Stage)
    } else if contains_seq(name, "dev"@) {
        Some(Env::Dev)
    } else {
        None
    }
}

pub open spec fn env_label(env: Env) -> Seq<char> {
    match env {
        Env::Prod => "PROD"@,
        Env::Stage => "STAGE"@,
        Env::Dev => "DEV"@,
    }
}

impl Env {
    /// Reads the environment out of a kubeconfig context name, e.g. `orchard-prod` → `Prod`.
    /// `None` when the name says nothing, in which case no badge is shown at all.
    pub fn from_context(context: &str) -> (r: Option<Env>)
        ensures
            r == env_of(context@),
    {
        let lower = to_lower(context);
        let name = to_chars(lower.as_str());
        // clipped so that `production`, `staging` and `develop` are matched as well
        let prod = to_chars("prod");
        if contains_chars(name.as_slice(), prod.as_slice()) {
            return Some(Env::Prod);
        }
        let stag = to_chars("stag");
        if contains_chars(name.as_slice(), stag.as_slice()) {
            return Some(Env::Stage);
        }
        let dev = to_chars("dev");
        if contains_chars(name.as_slice(), dev.as_slice()) {
            return Some(Env::Dev);
        }
        None
    }

    pub fn label(self) -> (r: &'static str)
        ensures
            r@ == env_label(self),
    {
        match self {
            Env::Prod => "PROD",
            Env::Stage => "STAGE",
            Env::Dev => "DEV",
        }
    }
}

/// Which cluster the numbers on screen are about.
#[derive(Debug, Clone)]
pub struct Cluster {
    pub context: Option<String>,
    pub env: Option<Env>,
}

impl Default for Cluster {
    fn default() -> (r: Cluster)
        ensures
            r.context is None,
            r.env is None,
    {
        Cluster { context: None, env: None }
    }
}

impl Cluster {
    /// The cluster named by the current kubeconfig context, if there is one. Everything is
    /// optional: in-cluster there is no kubeconfig to read, and the tool still works — it
    /// just cannot name the cluster.
    pub fn from_context(context: Option<String>) -> (r: Cluster)
        ensures
            r.context == context,
            r.env == match context {
                Some(c) => env_of(c@),
                None => None,
            },
    {
        let env = match &context {
            Some(c) => Env::from_context(c.as_str()),
            None => None,
        };
        Cluster { context, env }
    }
}

/// A context's namespace, as the kubeconfig records it.
pub struct NamedContext {
    pub name: String,
    /// `None` when the entry carries no context at all.
    pub namespace: Option<Option<String>>,
}

/// The parts of a kubeconfig that say which namespace is current.
pub enum KubeconfigState {
    /// The kubeconfig could not be parsed.
    Unparsable,
    /// There is no kubeconfig.
    Missing,
    Loaded { current_context: Option<String>, contexts: Vec<NamedContext> },
}

/// Index of the first context called `name`.
pub open spec fn first_context(contexts: Seq<NamedContext>, name: Seq<char>) -> int
    decreases contexts.len(),
{
    if contexts.len() == 0 {
        -1
    } else if contexts[0].name@ == name {
        0
    } else {
        let r = first_context(contexts.drop_first(), name);
        if r < 0 {
            -1
        } else {
            r + 1
        }
    }
}

/// The namespace the current context points at, or what is missing on the way to it.
pub open spec fn current_namespace_spec(config: KubeconfigState) -> Result<Seq<char>, Seq<char>> {
    match config {
        KubeconfigState::Unparsable => Err("Couldn't parse config"@),
        KubeconfigState::Missing => Err("Couldn't unpack config"@),
        KubeconfigState::Loaded { current_context, contexts } => match current_context {
            None => Err("Not current context specified"@),
            Some(current) => {
                let i = first_context(contexts@, current@);
                if i < 0 {
                    Err("Couldn't find proper context"@)
                } else {
                    match contexts@[i].namespace {
                        None => Err("Couldn't open proper context"@),
                        Some(None) => Err("Current namespace is not set"@),
                        Some(Some(ns)) => Ok(ns@),
                    }
                }
            },
        },
    }
}

/// The namespace the current kubeconfig context points at.
#[verifier::loop_isolation(false)]
pub fn get_current_namespace(config: &KubeconfigState) -> (r: Result<String, MsgError>)
    ensures
        match (r, current_namespace_spec(*config)) {
            (Ok(ns), Ok(expected)) => ns@ == expected,
            (Err(e), Err(expected)) => e.details@ == expected,
            _ => false,
        },
{
    match config {
        KubeconfigState::Unparsable => Err(MsgError::new("Couldn't parse config")),
        KubeconfigState::Missing => Err(MsgError::new("Couldn't unpack config")),
        KubeconfigState::Loaded { current_context, contexts } => {
            let current = match current_context {
                Some(x) => x,
                None => {
                    return Err(MsgError::new("Not current context specified"));
                },
            };
            let mut i: usize = 0;
            proof {
                assert(contexts@.skip(0) =~= contexts@);
            }
            while i < contexts.len()
                invariant
                    i <= contexts@.len(),
                    forall|j: int| 0 <= j < i ==> contexts@[j].name@ != current@,
                    first_context(contexts@, current@) == if first_context(
                        contexts@.skip(i as int),
                        current@,
                    ) < 0 {
                        -1
                    } else {
                        first_context(contexts@.skip(i as int), current@) + i
                    },
                decreases contexts@.len() - i,
            {
                proof {
                    assert(contexts@.skip(i as int)[0] == contexts@[i as int]);
                    assert(contexts@.skip(i as int).drop_first() =~= contexts@.skip(i + 1));
                }
                if crate::chars::same_str(contexts[i].name.as_str(), current.as_str()) {
                    return match &contexts[i].namespace {
                        None => Err(MsgError::new("Couldn't open proper context")),
                        Some(None) => Err(MsgError::new("Current namespace is not set")),
                        Some(Some(ns)) => Ok(ns.clone()),
                    };
                }
                i += 1;
            }
            assert(contexts@.skip(i as int).len() == 0);
            Err(MsgError::new("Couldn't find proper context"))
        },
    }
}

} // verus!
