use vstd::prelude::*;
use vstd::utf8::encode_utf8;

verus! {

pub open spec fn is_digit_byte(b: u8) -> bool {
    48 <= b <= 57
}

pub open spec fn is_alnum_byte(b: u8) -> bool {
    is_digit_byte(b) || (65 <= b <= 90) || (97 <= b <= 122)
}

/// A byte that may follow the first one in a target's host part: a letter, a digit, `.` or `-`.
pub open spec fn is_host_byte(b: u8) -> bool {
    is_alnum_byte(b) || b == 46 || b == 45
}

/// A byte allowed in an app name: a letter, a digit, `-` or `_`.
pub open spec fn is_app_name_byte(b: u8) -> bool {
    is_alnum_byte(b) || b == 45 || b == 95
}

/// The number written by a sequence of decimal digits.
pub open spec fn decimal_value(digits: Seq<u8>) -> nat
    decreases digits.len(),
{
    if digits.len() == 0 {
        0
    } else {
        decimal_value(digits.drop_last()) * 10 + (digits.last() - 48) as nat
    }
}

pub open spec fn pow10(k: nat) -> nat
    decreases k,
{
    if k == 0 {
        1
    } else {
        10 * pow10((k - 1) as nat)
    }
}

/// `bytes` reads `host:port` with the colon at `colon`: a host that starts with a letter or a
/// digit and goes on with letters, digits, dots and dashes, then one to five decimal digits.
pub open spec fn target_layout(bytes: Seq<u8>, colon: int) -> bool {
    &&& 1 <= colon < bytes.len()
    &&& is_alnum_byte(bytes[0])
    &&& forall|k: int| 1 <= k < colon ==> is_host_byte(#[trigger] bytes[k])
    &&& bytes[colon] == 58
    &&& 1 <= bytes.len() - colon - 1 <= 5
    &&& forall|k: int| colon < k < bytes.len() ==> is_digit_byte(#[trigger] bytes[k])
}

pub open spec fn target_port_value(bytes: Seq<u8>, colon: int) -> nat {
    decimal_value(bytes.subrange(colon + 1, bytes.len() as int))
}

/// Why a string is not a target endpoint.
#[derive(Clone, Copy, Debug, PartialEq, Eq, Structural)]
pub enum TargetError {
    /// The string is not of the form `host:port` described by [`target_layout`].
    Malformed,
    /// The port has the right form but is above 65535.
    PortOutOfRange,
}

/// The verdict on the UTF-8 bytes of a would-be target endpoint.
pub open spec fn target_check(bytes: Seq<u8>) -> Result<(), TargetError> {
    if exists|colon: int| target_layout(bytes, colon) {
        let colon = choose|colon: int| target_layout(bytes, colon);
        if target_port_value(bytes, colon) <= 65535 {
            Ok(())
        } else {
            Err(TargetError::PortOutOfRange)
        }
    } else {
        Err(TargetError::Malformed)
    }
}

proof fn lemma_pow10_monotone(a: nat, b: nat)
    requires
        a <= b,
    ensures
        pow10(a) <= pow10(b),
    decreases b,
{
    if a < b {
        lemma_pow10_monotone(a, (b - 1) as nat);
    }
}

/// Checks that `endpoint` is `host:port` as described by [`target_layout`], with a port that
/// fits in 16 bits.
pub fn validate_target(endpoint: &str) -> (r: Result<(), TargetError>)
    ensures
        r == target_check(encode_utf8(endpoint@)),
{
    let bytes = endpoint.as_bytes();
    let ghost b = bytes@;
    assert(b == encode_utf8(endpoint@));
    let n = bytes.len();
    if n == 0 || !(is_alnum(bytes[0])) {
        assert(!exists|colon: int| target_layout(b, colon));
        return Err(TargetError::Malformed);
    }
    let mut i: usize = 1;
    while i < n && is_host(bytes[i])
        invariant
            1 <= i <= n,
            n == b.len(),
            bytes@ == b,
            forall|k: int| 1 <= k < i ==> is_host_byte(#[trigger] b[k]),
        decreases n - i,
    {
        i = i + 1;
    }
    // Any layout has its colon exactly at `i`, the first byte after the host.
    assert forall|colon: int| target_layout(b, colon) implies colon == i by {
        if colon < i {
            assert(is_host_byte(b[colon]));
        } else if colon > i {
            assert(is_host_byte(b[i as int]));
        }
    }
    if i == n || bytes[i] != 58u8 {
        return Err(TargetError::Malformed);
    }
    let digits = n - i - 1;
    if digits == 0 || digits > 5 {
        assert(!target_layout(b, i as int));
        return Err(TargetError::Malformed);
    }
    let mut j: usize = i + 1;
    let mut value: u32 = 0;
    while j < n
        invariant
            i + 1 <= j <= n,
            n == b.len(),
            bytes@ == b,
            b == encode_utf8(endpoint@),
            n - i - 1 <= 5,
            forall|colon: int| target_layout(b, colon) ==> colon == i,
            forall|k: int| (i as int) < k < j ==> is_digit_byte(#[trigger] b[k]),
            value == decimal_value(b.subrange(i + 1, j as int)),
            value < pow10((j - i - 1) as nat),
        decreases n - j,
    {
        let d = bytes[j];
        if !(48u8 <= d && d <= 57u8) {
            assert(!target_layout(b, i as int));
            return Err(TargetError::Malformed);
        }
        proof {
            let k = (j - i - 1) as nat;
            lemma_pow10_monotone(k, 4);
            reveal_with_fuel(pow10, 5);
            assert(b.subrange(i + 1, j + 1).drop_last() =~= b.subrange(i + 1, j as int));
        }
        value = value * 10 + (d - 48u8) as u32;
        j = j + 1;
    }
    assert(target_layout(b, i as int));
    assert(b.subrange(i + 1, n as int) == b.subrange(i + 1, j as int));
    if value > 65535 {
        Err(TargetError::PortOutOfRange)
    } else {
        Ok(())
    }
}

fn is_alnum(b: u8) -> (r: bool)
    ensures
        r == is_alnum_byte(b),
{
    (48u8 <= b && b <= 57u8) || (65u8 <= b && b <= 90u8) || (97u8 <= b && b <= 122u8)
}

fn is_host(b: u8) -> (r: bool)
    ensures
        r == is_host_byte(b),
{
    is_alnum(b) || b == 46u8 || b == 45u8
}

/// A proxied endpoint `host:port`, kept as the text it was made from. Only text that
/// [`validate_target`] accepts can become a `Target`.
#[derive(Debug, PartialEq, Eq, Hash)]
pub struct Target {
    endpoint: String,
}

impl Clone for Target {
    fn clone(&self) -> (r: Target)
        ensures
            r@ == self@,
    {
        proof {
            use_type_invariant(self);
        }
        Target { endpoint: self.endpoint.clone() }
    }
}

impl View for Target {
    type V = Seq<char>;

    closed spec fn view(&self) -> Seq<char> {
        self.endpoint@
    }
}

impl Target {
    #[verifier::type_invariant]
    spec fn well_formed(self) -> bool {
        target_check(encode_utf8(self.endpoint@)) is Ok
    }

    /// Makes a target of `endpoint` when [`validate_target`] accepts it, and fails with its
    /// error otherwise.
    pub fn try_new(endpoint: String) -> (r: Result<Target, TargetError>)
        ensures
            match r {
                Ok(t) => target_check(encode_utf8(endpoint@)) is Ok && t@ == endpoint@,
                Err(e) => target_check(encode_utf8(endpoint@)) == Err::<(), TargetError>(e),
            },
    {
        match validate_target(endpoint.as_str()) {
            Ok(()) => Ok(Target { endpoint }),
            Err(e) => Err(e),
        }
    }

    /// The endpoint's text, which [`validate_target`] accepts.
    pub fn as_str(&self) -> (r: &str)
        ensures
            r@ == self@,
            target_check(encode_utf8(r@)) is Ok,
    {
        proof {
            use_type_invariant(self);
        }
        self.endpoint.as_str()
    }

    pub fn into_inner(self) -> (r: String)
        ensures
            r@ == self@,
    {
        self.endpoint
    }

    /// Whether two targets name the same endpoint.
    pub fn same_as(&self, other: &Target) -> (r: bool)
        ensures
            r == (self@ == other@),
    {
        self.endpoint == other.endpoint
    }
}

/// Why a string is not an app name.
#[derive(Clone, Copy, Debug, PartialEq, Eq, Structural)]
pub enum AppNameError {
    Empty,
    /// A character other than an ASCII letter, a digit, `-` or `_`.
    InvalidCharacter,
}

/// The verdict on the UTF-8 bytes of a would-be app name.
pub open spec fn app_name_check(bytes: Seq<u8>) -> Result<(), AppNameError> {
    if bytes.len() == 0 {
        Err(AppNameError::Empty)
    } else if forall|k: int| 0 <= k < bytes.len() ==> is_app_name_byte(#[trigger] bytes[k]) {
        Ok(())
    } else {
        Err(AppNameError::InvalidCharacter)
    }
}

/// Checks that `name` is a non-empty run of ASCII letters, digits, `-` and `_`.
pub fn validate_app_name(name: &str) -> (r: Result<(), AppNameError>)
    ensures
        r == app_name_check(encode_utf8(name@)),
{
    let bytes = name.as_bytes();
    let n = bytes.len();
    if n == 0 {
        return Err(AppNameError::Empty);
    }
    let mut i: usize = 0;
    while i < n
        invariant
            i <= n,
            n == bytes@.len(),
            bytes@ == encode_utf8(name@),
            forall|k: int| 0 <= k < i ==> is_app_name_byte(#[trigger] bytes@[k]),
        decreases n - i,
    {
        let c = bytes[i];
        if !(is_alnum(c) || c == 45u8 || c == 95u8) {
            assert(!is_app_name_byte(bytes@[i as int]));
            return Err(AppNameError::InvalidCharacter);
        }
        i = i + 1;
    }
    Ok(())
}

/// The name of an app, kept as the text it was made from. Only text that
/// [`validate_app_name`] accepts can become an `AppName`.
#[derive(Debug, PartialEq, Eq, Hash)]
pub struct AppName {
    name: String,
}

impl Clone for AppName {
    fn clone(&self) -> (r: AppName)
        ensures
            r@ == self@,
    {
        proof {
            use_type_invariant(self);
        }
        AppName { name: self.name.clone() }
    }
}

impl View for AppName {
    type V = Seq<char>;

    closed spec fn view(&self) -> Seq<char> {
        self.name@
    }
}

impl AppName {
    #[verifier::type_invariant]
    spec fn well_formed(self) -> bool {
        app_name_check(encode_utf8(self.name@)) is Ok
    }

    /// Makes an app name of `name` when [`validate_app_name`] accepts it, and fails with its
    /// error otherwise.
    pub fn try_new(name: String) -> (r: Result<AppName, AppNameError>)
        ensures
            match r {
                Ok(a) => app_name_check(encode_utf8(name@)) is Ok && a@ == name@,
                Err(e) => app_name_check(encode_utf8(name@)) == Err::<(), AppNameError>(e),
            },
    {
        match validate_app_name(name.as_str()) {
            Ok(()) => Ok(AppName { name }),
            Err(e) => Err(e),
        }
    }

    /// The name's text, which [`validate_app_name`] accepts.
    pub fn as_str(&self) -> (r: &str)
        ensures
            r@ == self@,
            app_name_check(encode_utf8(r@)) is Ok,
    {
        proof {
            use_type_invariant(self);
        }
        self.name.as_str()
    }

    pub fn into_inner(self) -> (r: String)
        ensures
            r@ == self@,
    {
        self.name
    }

    /// The name as a new `String`.
    pub fn to_text(&self) -> (r: String)
        ensures
            r@ == self@,
    {
        self.name.clone()
    }

    /// Whether this name is the text `text`.
    pub fn is_text(&self, text: &String) -> (r: bool)
        ensures
            r == (self@ == text@),
    {
        self.name == *text
    }

    /// Whether two app names are the same text.
    pub fn same_as(&self, other: &AppName) -> (r: bool)
        ensures
            r == (self@ == other@),
    {
        self.name == other.name
    }
}

/// No two entries name the same target: the entries stand for a map from targets.
pub open spec fn distinct_keys<V>(entries: Seq<(Target, V)>) -> bool {
    forall|i: int, j: int|
        0 <= i < j < entries.len() ==> #[trigger] entries[i].0@ != #[trigger] entries[j].0@
}

/// The value of the first entry keyed by `key`. Under [`distinct_keys`] it is the value of the
/// only entry keyed by `key` (see [`lemma_lookup_entry_unique`]), as a map would give it.
pub open spec fn lookup_entry<V>(entries: Seq<(Target, V)>, key: Seq<char>) -> Option<V>
    decreases entries.len(),
{
    if entries.len() == 0 {
        None
    } else if entries[0].0@ == key {
        Some(entries[0].1)
    } else {
        lookup_entry(entries.drop_first(), key)
    }
}

/// With distinct keys, the lookup of an entry's key gives that entry's value.
pub proof fn lemma_lookup_entry_unique<V>(entries: Seq<(Target, V)>, k: int)
    requires
        distinct_keys(entries),
        0 <= k < entries.len(),
    ensures
        lookup_entry(entries, entries[k].0@) == Some(entries[k].1),
    decreases entries.len(),
{
    if k > 0 {
        assert(entries[0].0@ != entries[k].0@);
        let rest = entries.drop_first();
        assert(rest[k - 1] == entries[k]);
        assert forall|i: int, j: int| 0 <= i < j < rest.len() implies #[trigger] rest[i].0@
            != #[trigger] rest[j].0@ by {
            assert(entries[i + 1].0@ != entries[j + 1].0@);
        }
        lemma_lookup_entry_unique(rest, k - 1);
    }
}

/// What the lookup finds is the value of some entry.
pub proof fn lemma_lookup_entry_found<V>(entries: Seq<(Target, V)>, key: Seq<char>)
    requires
        lookup_entry(entries, key) is Some,
    ensures
        exists|k: int|
            0 <= k < entries.len() && entries[k].0@ == key && #[trigger] entries[k].1
                == lookup_entry(entries, key)->0,
    decreases entries.len(),
{
    if entries[0].0@ == key {
        assert(entries[0].1 == lookup_entry(entries, key)->0);
    } else {
        lemma_lookup_entry_found(entries.drop_first(), key);
        let k = choose|k: int|
            0 <= k < entries.drop_first().len() && entries.drop_first()[k].0@ == key
                && #[trigger] entries.drop_first()[k].1 == lookup_entry(entries.drop_first(), key)->0;
        assert(entries[k + 1].1 == lookup_entry(entries, key)->0);
    }
}

/// The position of the first entry keyed by `key`.
pub fn find_entry<V>(entries: &Vec<(Target, V)>, key: &Target) -> (r: Option<usize>)
    requires
        distinct_keys(entries@),
    ensures
        match r {
            Some(i) => i < entries@.len() && entries@[i as int].0@ == key@ && lookup_entry(
                entries@,
                key@,
            ) == Some(entries@[i as int].1),
            None => lookup_entry(entries@, key@) is None,
        },
{
    let n = entries.len();
    let mut i: usize = 0;
    assert(entries@.subrange(0, n as int) =~= entries@);
    while i < n
        invariant
            i <= n,
            n == entries@.len(),
            lookup_entry(entries@, key@) == lookup_entry(entries@.subrange(i as int, n as int), key@),
        decreases n - i,
    {
        let ghost rest = entries@.subrange(i as int, n as int);
        assert(rest.drop_first() =~= entries@.subrange(i + 1, n as int));
        assert(rest[0] == entries@[i as int]);
        if entries[i].0.same_as(key) {
            return Some(i);
        }
        i = i + 1;
    }
    None
}

/// How an app weighs one of its targets under a load-balancing strategy.
#[derive(Clone, Copy, Debug, PartialEq, Eq, Structural)]
pub enum LoadBalancerStrategyTargetMeta {
    RoundRobin,
    Weighted { weight: u16 },
}

/// What an app knows of one of its targets beyond its endpoint.
#[derive(Clone, Copy, Debug, PartialEq, Eq, Structural)]
pub struct AppTargetMeta {
    pub load_balancer_strategy_meta: Option<LoadBalancerStrategyTargetMeta>,
}

} // verus!
