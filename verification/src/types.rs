//! The service's data: stream states, tokens, components, pair tags, the
//! response envelope and the configuration.

use vstd::prelude::*;
use vstd::string::*;

verus! {

/// How far the stream of one network has come.
#[derive(Debug, Clone, Copy, PartialEq, Eq, Structural)]
pub enum StreamState {
    Down,
    Launching,
    Syncing,
    Running,
    Error,
}

impl StreamState {
    /// The number under which a state is stored.
    pub open spec fn spec_code(self) -> u128 {
        match self {
            StreamState::Down => 1,
            StreamState::Launching => 2,
            StreamState::Syncing => 3,
            StreamState::Running => 4,
            StreamState::Error => 5,
        }
    }

    /// The state that a stored number stands for. A missing or unknown number
    /// reads as `Error`.
    pub open spec fn spec_from_code(code: Option<u128>) -> StreamState {
        match code {
            Some(c) => if c == 1 {
                StreamState::Down
            } else if c == 2 {
                StreamState::Launching
            } else if c == 3 {
                StreamState::Syncing
            } else if c == 4 {
                StreamState::Running
            } else {
                StreamState::Error
            },
            None => StreamState::Error,
        }
    }

    /// The state's name.
    pub open spec fn spec_name(self) -> Seq<char> {
        match self {
            StreamState::Down => "Down"@,
            StreamState::Launching => "Launching"@,
            StreamState::Syncing => "Syncing"@,
            StreamState::Running => "Running"@,
            StreamState::Error => "Error"@,
        }
    }

    pub fn code(&self) -> (r: u128)
        ensures
            r == self.spec_code(),
    {
        match self {
            StreamState::Down => 1,
            StreamState::Launching => 2,
            StreamState::Syncing => 3,
            StreamState::Running => 4,
            StreamState::Error => 5,
        }
    }

    pub fn from_code(code: Option<u128>) -> (r: StreamState)
        ensures
            r == Self::spec_from_code(code),
    {
        match code {
            Some(1) => StreamState::Down,
            Some(2) => StreamState::Launching,
            Some(3) => StreamState::Syncing,
            Some(4) => StreamState::Running,
            _ => StreamState::Error,
        }
    }

    pub fn name(&self) -> (r: String)
        ensures
            r@ == self.spec_name(),
    {
        match self {
            StreamState::Down => String::from_str("Down"),
            StreamState::Launching => String::from_str("Launching"),
            StreamState::Syncing => String::from_str("Syncing"),
            StreamState::Running => String::from_str("Running"),
            StreamState::Error => String::from_str("Error"),
        }
    }
}

/// Reading a state from its number and writing it back gives the same state.
pub proof fn state_code_round_trip(s: StreamState)
    ensures
        StreamState::spec_from_code(Some(s.spec_code())) == s,
{
}

/// The uniform answer of every endpoint.
#[derive(Debug, Clone)]
pub struct APIResponse<T> {
    pub success: bool,
    pub error: String,
    pub ts: u64,
    pub data: Option<T>,
}

/// The stream's state number and the latest block, as a decimal numeral.
#[derive(Debug, Clone)]
pub struct Status {
    pub stream: u128,
    pub latest: String,
}

#[derive(Debug, Clone)]
pub struct Version {
    pub version: String,
}

/// An unordered pair of tokens: both symbols and both addresses, the smaller
/// address first.
#[derive(Debug, Clone)]
pub struct PairTag {
    pub base: String,
    pub quote: String,
    pub addrbase: String,
    pub addrquote: String,
}

pub struct PairTagView {
    pub base: Seq<char>,
    pub quote: Seq<char>,
    pub addrbase: Seq<char>,
    pub addrquote: Seq<char>,
}

impl View for PairTag {
    type V = PairTagView;

    open spec fn view(&self) -> PairTagView {
        PairTagView {
            base: self.base@,
            quote: self.quote@,
            addrbase: self.addrbase@,
            addrquote: self.addrquote@,
        }
    }
}

/// What the service is configured with.
#[derive(Debug, Clone)]
pub struct EnvAPIConfig {
    pub testing: bool,
    pub tycho_api_key: String,
    pub networks: Vec<String>,
    pub heartbeats: Vec<String>,
    pub origin: String,
    pub web_api_key: String,
    pub api_port: String,
}

/// A token of a network.
#[derive(Debug, Clone)]
pub struct Token {
    pub address: String,
    pub symbol: String,
    pub decimals: u64,
    pub quality: u32,
}

pub struct TokenView {
    pub address: Seq<char>,
    pub symbol: Seq<char>,
    pub decimals: u64,
    pub quality: u32,
}

impl View for Token {
    type V = TokenView;

    open spec fn view(&self) -> TokenView {
        TokenView {
            address: self.address@,
            symbol: self.symbol@,
            decimals: self.decimals,
            quality: self.quality,
        }
    }
}

impl Token {
    /// A copy with the same content.
    pub fn duplicate(&self) -> (r: Token)
        ensures
            r@ == self@,
    {
        Token {
            address: self.address.clone(),
            symbol: self.symbol.clone(),
            decimals: self.decimals,
            quality: self.quality,
        }
    }
}

/// A static attribute of a component, fixed at its creation.
#[derive(Debug, Clone)]
pub struct Attribute {
    pub name: String,
    pub value: String,
}

impl View for Attribute {
    type V = (Seq<char>, Seq<char>);

    open spec fn view(&self) -> (Seq<char>, Seq<char>) {
        (self.name@, self.value@)
    }
}

/// A liquidity pool's metadata.
#[derive(Debug, Clone)]
pub struct Component {
    pub id: String,
    pub protocol_system: String,
    pub tokens: Vec<Token>,
    pub static_attributes: Vec<Attribute>,
    /// Seconds since the epoch.
    pub last_updated_at: u64,
}

pub struct ComponentView {
    pub id: Seq<char>,
    pub protocol_system: Seq<char>,
    pub tokens: Seq<TokenView>,
    pub static_attributes: Seq<(Seq<char>, Seq<char>)>,
    pub last_updated_at: u64,
}

/// The content of a list of tokens.
pub open spec fn token_views(v: Seq<Token>) -> Seq<TokenView> {
    Seq::new(v.len(), |i: int| v[i]@)
}

/// The content of a list of attributes.
pub open spec fn attribute_views(v: Seq<Attribute>) -> Seq<(Seq<char>, Seq<char>)> {
    Seq::new(v.len(), |i: int| v[i]@)
}

/// The content of a list of components.
pub open spec fn component_views(v: Seq<Component>) -> Seq<ComponentView> {
    Seq::new(v.len(), |i: int| v[i]@)
}

/// The content of a list of pair tags.
pub open spec fn pair_views(v: Seq<PairTag>) -> Seq<PairTagView> {
    Seq::new(v.len(), |i: int| v[i]@)
}

impl View for Component {
    type V = ComponentView;

    open spec fn view(&self) -> ComponentView {
        ComponentView {
            id: self.id@,
            protocol_system: self.protocol_system@,
            tokens: token_views(self.tokens@),
            static_attributes: attribute_views(self.static_attributes@),
            last_updated_at: self.last_updated_at,
        }
    }
}

impl ComponentView {
    /// The same component, last updated at `now`.
    pub open spec fn stamped(self, now: u64) -> ComponentView {
        ComponentView { last_updated_at: now, ..self }
    }
}

/// A copy of a list of tokens.
pub fn duplicate_tokens(v: &Vec<Token>) -> (r: Vec<Token>)
    ensures
        token_views(r@) == token_views(v@),
{
    let mut r: Vec<Token> = Vec::new();
    let mut i: usize = 0;
    while i < v.len()
        invariant
            i <= v.len(),
            r.len() == i,
            forall|j: int| 0 <= j < i ==> r[j]@ == v[j]@,
        decreases v.len() - i,
    {
        r.push(v[i].duplicate());
        i += 1;
    }
    assert(token_views(r@) =~= token_views(v@));
    r
}

/// A copy of a list of attributes.
pub fn duplicate_attributes(v: &Vec<Attribute>) -> (r: Vec<Attribute>)
    ensures
        attribute_views(r@) == attribute_views(v@),
{
    let mut r: Vec<Attribute> = Vec::new();
    let mut i: usize = 0;
    while i < v.len()
        invariant
            i <= v.len(),
            r.len() == i,
            forall|j: int| 0 <= j < i ==> r[j]@ == v[j]@,
        decreases v.len() - i,
    {
        r.push(Attribute { name: v[i].name.clone(), value: v[i].value.clone() });
        i += 1;
    }
    assert(attribute_views(r@) =~= attribute_views(v@));
    r
}

impl Component {
    /// A copy with the same content.
    pub fn duplicate(&self) -> (r: Component)
        ensures
            r@ == self@,
    {
        Component {
            id: self.id.clone(),
            protocol_system: self.protocol_system.clone(),
            tokens: duplicate_tokens(&self.tokens),
            static_attributes: duplicate_attributes(&self.static_attributes),
            last_updated_at: self.last_updated_at,
        }
    }

    /// A copy that was last updated at `now`.
    pub fn stamped(&self, now: u64) -> (r: Component)
        ensures
            r@ == self@.stamped(now),
    {
        Component {
            id: self.id.clone(),
            protocol_system: self.protocol_system.clone(),
            tokens: duplicate_tokens(&self.tokens),
            static_attributes: duplicate_attributes(&self.static_attributes),
            last_updated_at: now,
        }
    }
}

} // verus!
