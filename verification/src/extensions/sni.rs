//! What to do with a TLS stream, by the server name that its client asks for.

use vstd::prelude::*;

use crate::text::{chars_of, signed_decimal, signed_decimal_text, split, split_text, text_of, views};

verus! {

/// The type of the extension that carries a policy.
pub const SNI_POLICY_TYPE_URL: &'static str =
    "type.googleapis.com/kruise.networking.extensions.v1.SniTrafficPolicy";

/// What happens to a TLS stream.
#[derive(Clone, Copy, Debug, PartialEq, Eq, Hash, Structural)]
pub enum SniAction {
    TlsTermination,
    Passthrough,
    Deny,
}

/// An action for the server names that fit one of the patterns.
#[derive(Clone, Debug, PartialEq, Eq, Hash)]
pub struct SniRule {
    pub sni: Vec<String>,
    pub action: SniAction,
}

/// Rules in the order in which they are tried.
#[derive(Clone, Debug, PartialEq, Eq, Hash)]
pub struct SniTrafficPolicy {
    pub rules: Vec<SniRule>,
}

/// Why a policy is not accepted.
#[derive(Debug, PartialEq, Eq)]
pub enum SniPolicyError {
    Decode(String),
    InvalidAction(i32),
    InvalidPattern(String),
}

/// Why a policy is not accepted, as mathematics has it.
pub enum SniFault {
    Decode(Seq<char>),
    InvalidAction(i32),
    InvalidPattern(Seq<char>),
}

impl View for SniPolicyError {
    type V = SniFault;

    open spec fn view(&self) -> SniFault {
        match *self {
            SniPolicyError::Decode(e) => SniFault::Decode(e@),
            SniPolicyError::InvalidAction(n) => SniFault::InvalidAction(n),
            SniPolicyError::InvalidPattern(p) => SniFault::InvalidPattern(p@),
        }
    }
}

/// A rule as the control plane sends it: the patterns, where the rule has a match,
/// and the number of the action.
#[derive(Clone, Debug, PartialEq, Eq)]
pub struct SniRuleMessage {
    pub sni: Option<Vec<String>>,
    pub action: i32,
}

/// The action that a number stands for.
pub open spec fn action_of(number: i32) -> Option<SniAction> {
    if number == 1 {
        Some(SniAction::TlsTermination)
    } else if number == 2 {
        Some(SniAction::Passthrough)
    } else if number == 3 {
        Some(SniAction::Deny)
    } else {
        None
    }
}

/// A name without the dot that may end it.
pub open spec fn without_dot(name: Seq<char>) -> Seq<char> {
    if name.len() > 0 && name.last() == '.' {
        name.drop_last()
    } else {
        name
    }
}

/// An ASCII letter in lower case.
pub open spec fn folded(c: char) -> char {
    if 65 <= c as int <= 90 {
        (c as int + 32) as char
    } else {
        c
    }
}

/// The names agree but for the case of ASCII letters.
pub open spec fn same_folded(a: Seq<char>, b: Seq<char>) -> bool {
    a.len() == b.len() && forall|i: int|
        #![trigger a[i]]
        #![trigger b[i]]
        0 <= i < a.len() ==> folded(a[i]) == folded(b[i])
}

/// The name ends in the suffix, and something stands before it.
pub open spec fn ends_in(name: Seq<char>, suffix: Seq<char>) -> bool {
    name.len() > suffix.len() && same_folded(name.skip(name.len() - suffix.len()), suffix)
}

/// Whether the name fits the pattern: the pattern is a lone asterisk, or the name
/// itself, or an asterisk before what the name ends in.
pub open spec fn fits(pattern: Seq<char>, name: Seq<char>) -> bool {
    let p = without_dot(pattern);
    ||| p == seq!['*']
    ||| same_folded(p, name)
    ||| p.len() > 0 && p[0] == '*' && ends_in(name, p.drop_first())
}

/// Whether the name fits one of the patterns.
pub open spec fn fits_any(patterns: Seq<String>, name: Seq<char>) -> bool {
    exists|i: int| 0 <= i < patterns.len() && fits((#[trigger] patterns[i])@, name)
}

/// The action of the first rule that the name fits; without one, the stream passes.
pub open spec fn decided(rules: Seq<SniRule>, name: Seq<char>) -> SniAction
    decreases rules.len(),
{
    if rules.len() == 0 {
        SniAction::Passthrough
    } else if fits_any(rules[0].sni@, name) {
        rules[0].action
    } else {
        decided(rules.drop_first(), name)
    }
}

/// An ASCII letter or digit.
pub open spec fn is_alphanumeric(c: char) -> bool {
    48 <= c as int <= 57 || 65 <= c as int <= 90 || 97 <= c as int <= 122
}

/// A part of a host name.
pub open spec fn valid_label(label: Seq<char>) -> bool {
    &&& 1 <= label.len() <= 63
    &&& is_alphanumeric(label[0])
    &&& is_alphanumeric(label.last())
    &&& forall|i: int|
        0 <= i < label.len() ==> is_alphanumeric(#[trigger] label[i]) || label[i] == '-'
}

/// The pattern without the asterisk that may stand for its first part.
pub open spec fn host_part(name: Seq<char>) -> Seq<char> {
    if name.len() >= 2 && name[0] == '*' && name[1] == '.' {
        name.skip(2)
    } else {
        name
    }
}

/// A pattern that a policy may hold.
pub open spec fn valid_pattern(pattern: Seq<char>) -> bool {
    let name = without_dot(pattern);
    name == seq!['*'] || {
        let host = host_part(name);
        &&& 1 <= host.len() <= 253
        &&& forall|i: int|
            0 <= i < split(host, '.').len() ==> valid_label(#[trigger] split(host, '.')[i])
    }
}

/// The first pattern that a policy may not hold.
pub open spec fn bad_pattern(patterns: Seq<String>) -> Option<Seq<char>>
    decreases patterns.len(),
{
    if patterns.len() == 0 {
        None
    } else if !valid_pattern(patterns[0]@) {
        Some(patterns[0]@)
    } else {
        bad_pattern(patterns.drop_first())
    }
}

/// The first pattern of a rule that a policy may not hold.
pub open spec fn bad_rule(rules: Seq<SniRule>) -> Option<Seq<char>>
    decreases rules.len(),
{
    if rules.len() == 0 {
        None
    } else if bad_pattern(rules[0].sni@) is Some {
        bad_pattern(rules[0].sni@)
    } else {
        bad_rule(rules.drop_first())
    }
}

/// The first number that stands for no action.
pub open spec fn bad_action(messages: Seq<SniRuleMessage>) -> Option<i32>
    decreases messages.len(),
{
    if messages.len() == 0 {
        None
    } else if action_of(messages[0].action) is None {
        Some(messages[0].action)
    } else {
        bad_action(messages.drop_first())
    }
}

/// The patterns of a rule; a rule without a match has none.
pub open spec fn patterns_of(message: SniRuleMessage) -> Seq<String> {
    match message.sni {
        Some(names) => names@,
        None => Seq::empty(),
    }
}

/// The first pattern of a message that a policy may not hold.
pub open spec fn bad_message(messages: Seq<SniRuleMessage>) -> Option<Seq<char>>
    decreases messages.len(),
{
    if messages.len() == 0 {
        None
    } else if bad_pattern(patterns_of(messages[0])) is Some {
        bad_pattern(patterns_of(messages[0]))
    } else {
        bad_message(messages.drop_first())
    }
}

/// What is wrong with rules that the control plane sent. Numbers that stand for no
/// action are found before patterns that a policy may not hold.
pub open spec fn messages_fault(messages: Seq<SniRuleMessage>) -> Option<SniFault> {
    if bad_action(messages) is Some {
        Some(SniFault::InvalidAction(bad_action(messages).unwrap()))
    } else if bad_message(messages) is Some {
        Some(SniFault::InvalidPattern(bad_message(messages).unwrap()))
    } else {
        None
    }
}

/// The rule says what the message does.
pub open spec fn rule_of(rule: SniRule, message: SniRuleMessage) -> bool {
    action_of(message.action) == Some(rule.action) && rule.sni@ == patterns_of(message)
}

/// The rules say what the messages do, one for one.
pub open spec fn rules_of(rules: Seq<SniRule>, messages: Seq<SniRuleMessage>) -> bool {
    rules.len() == messages.len() && forall|i: int|
        #![trigger rules[i]]
        0 <= i < rules.len() ==> rule_of(rules[i], messages[i])
}

proof fn lemma_bad_message(rules: Seq<SniRule>, messages: Seq<SniRuleMessage>)
    requires
        rules_of(rules, messages),
    ensures
        bad_rule(rules) == bad_message(messages),
    decreases rules.len(),
{
    if rules.len() > 0 {
        assert(rule_of(rules[0], messages[0]));
        let rest = rules.drop_first();
        let sent = messages.drop_first();
        assert forall|i: int| #![trigger rest[i]] 0 <= i < rest.len() implies rule_of(
            rest[i],
            sent[i],
        ) by {
            assert(rest[i] == rules[i + 1]);
        }
        lemma_bad_message(rest, sent);
    }
}

fn fold(c: char) -> (r: char)
    ensures
        r == folded(c),
{
    if 'A' <= c && c <= 'Z' {
        let code: u8 = c as u8;
        (code + 32) as char
    } else {
        c
    }
}

fn equal_folded(a: &[char], b: &[char]) -> (r: bool)
    ensures
        r == same_folded(a@, b@),
{
    if a.len() != b.len() {
        return false;
    }
    let mut i: usize = 0;
    while i < a.len()
        invariant
            i <= a@.len(),
            a@.len() == b@.len(),
            forall|k: int| 0 <= k < i ==> folded(#[trigger] a@[k]) == folded(b@[k]),
        decreases a@.len() - i,
    {
        if fold(a[i]) != fold(b[i]) {
            return false;
        }
        i = i + 1;
    }
    true
}

fn strip_dot(name: &[char]) -> (r: &[char])
    ensures
        r@ == without_dot(name@),
{
    if name.len() > 0 && name[name.len() - 1] == '.' {
        assert(name@.subrange(0, name@.len() - 1) =~= name@.drop_last());
        vstd::slice::slice_subrange(name, 0, name.len() - 1)
    } else {
        name
    }
}

fn is_asterisk(name: &[char]) -> (r: bool)
    ensures
        r == (name@ == seq!['*']),
{
    let r: bool = name.len() == 1 && name[0] == '*';
    assert(r ==> name@ =~= seq!['*']);
    r
}

fn fits_exec(pattern: &str, name: &[char]) -> (r: bool)
    ensures
        r == fits(pattern@, name@),
{
    let chars: Vec<char> = chars_of(pattern);
    let p: &[char] = strip_dot(chars.as_slice());
    if is_asterisk(p) || equal_folded(p, name) {
        return true;
    }
    if p.len() > 0 && p[0] == '*' {
        let suffix: &[char] = vstd::slice::slice_subrange(p, 1, p.len());
        assert(suffix@ =~= p@.drop_first());
        if name.len() > suffix.len() {
            let tail: &[char] = vstd::slice::slice_subrange(
                name,
                name.len() - suffix.len(),
                name.len(),
            );
            assert(tail@ =~= name@.skip(name@.len() - suffix@.len()));
            return equal_folded(tail, suffix);
        }
    }
    false
}

fn rule_fits(rule: &SniRule, name: &[char]) -> (r: bool)
    ensures
        r == fits_any(rule.sni@, name@),
{
    let mut i: usize = 0;
    while i < rule.sni.len()
        invariant
            i <= rule.sni@.len(),
            forall|k: int| 0 <= k < i ==> !fits((#[trigger] rule.sni@[k])@, name@),
        decreases rule.sni@.len() - i,
    {
        if fits_exec(rule.sni[i].as_str(), name) {
            return true;
        }
        i = i + 1;
    }
    false
}

fn alphanumeric(c: char) -> (r: bool)
    ensures
        r == is_alphanumeric(c),
{
    ('0' <= c && c <= '9') || ('A' <= c && c <= 'Z') || ('a' <= c && c <= 'z')
}

fn label_is_valid(label: &str) -> (r: bool)
    ensures
        r == valid_label(label@),
{
    let chars: Vec<char> = chars_of(label);
    if chars.len() == 0 || chars.len() > 63 || !alphanumeric(chars[0]) || !alphanumeric(
        chars[chars.len() - 1],
    ) {
        return false;
    }
    let mut i: usize = 0;
    while i < chars.len()
        invariant
            i <= chars@.len(),
            chars@ == label@,
            forall|k: int|
                0 <= k < i ==> is_alphanumeric(#[trigger] label@[k]) || label@[k] == '-',
        decreases chars@.len() - i,
    {
        let c: char = chars[i];
        assert(c == label@[i as int]);
        if !alphanumeric(c) && c != '-' {
            return false;
        }
        i = i + 1;
    }
    true
}

fn host_is_valid(host: &[char]) -> (r: bool)
    ensures
        r == {
            &&& 1 <= host@.len() <= 253
            &&& forall|i: int|
                0 <= i < split(host@, '.').len() ==> valid_label(#[trigger] split(host@, '.')[i])
        },
{
    if host.len() == 0 || host.len() > 253 {
        return false;
    }
    let labels: Vec<String> = split_text(text_of(host).as_str(), '.');
    let mut i: usize = 0;
    while i < labels.len()
        invariant
            i <= labels@.len(),
            views(labels@) == split(host@, '.'),
            forall|k: int| 0 <= k < i ==> valid_label(#[trigger] split(host@, '.')[k]),
        decreases labels@.len() - i,
    {
        assert(views(labels@)[i as int] == labels@[i as int]@);
        if !label_is_valid(labels[i].as_str()) {
            assert(!valid_label(split(host@, '.')[i as int]));
            return false;
        }
        i = i + 1;
    }
    assert(views(labels@).len() == labels@.len());
    true
}

fn pattern_is_valid(pattern: &str) -> (r: bool)
    ensures
        r == valid_pattern(pattern@),
{
    let chars: Vec<char> = chars_of(pattern);
    let name: &[char] = strip_dot(chars.as_slice());
    if is_asterisk(name) {
        return true;
    }
    if name.len() >= 2 && name[0] == '*' && name[1] == '.' {
        assert(name@.subrange(2, name@.len() as int) =~= name@.skip(2));
        host_is_valid(vstd::slice::slice_subrange(name, 2, name.len()))
    } else {
        host_is_valid(name)
    }
}

fn check_patterns(patterns: &Vec<String>) -> (r: Result<(), SniPolicyError>)
    ensures
        match r {
            Ok(_) => bad_pattern(patterns@) is None,
            Err(SniPolicyError::InvalidPattern(p)) => bad_pattern(patterns@) == Some(p@),
            Err(_) => false,
        },
{
    let mut i: usize = 0;
    assert(patterns@.skip(0) =~= patterns@);
    while i < patterns.len()
        invariant
            i <= patterns@.len(),
            bad_pattern(patterns@) == bad_pattern(patterns@.skip(i as int)),
        decreases patterns@.len() - i,
    {
        assert(patterns@.skip(i as int).drop_first() =~= patterns@.skip(i + 1));
        assert(patterns@.skip(i as int)[0] == patterns@[i as int]);
        if !pattern_is_valid(patterns[i].as_str()) {
            return Err(SniPolicyError::InvalidPattern(patterns[i].clone()));
        }
        i = i + 1;
    }
    Ok(())
}

impl SniAction {
    /// How the next hop is told of the action; a refusal never gets there.
    pub open spec fn named(self) -> Option<Seq<char>> {
        match self {
            SniAction::TlsTermination => Some("terminate"@),
            SniAction::Passthrough => Some("passthrough"@),
            SniAction::Deny => None,
        }
    }

    /// How the next hop is told of the action.
    pub fn header_value(self) -> (r: Option<&'static str>)
        ensures
            (match r {
                Some(s) => Some(s@),
                None => None,
            }) == self.named(),
    {
        match self {
            SniAction::TlsTermination => Some("terminate"),
            SniAction::Passthrough => Some("passthrough"),
            SniAction::Deny => None,
        }
    }

    /// The action that a number stands for.
    pub fn from_number(number: i32) -> (r: Option<SniAction>)
        ensures
            r == action_of(number),
    {
        match number {
            1 => Some(SniAction::TlsTermination),
            2 => Some(SniAction::Passthrough),
            3 => Some(SniAction::Deny),
            _ => None,
        }
    }
}

impl SniPolicyError {
    /// The error in words.
    pub open spec fn described(self) -> Seq<char> {
        match self {
            SniPolicyError::Decode(e) => "failed to decode SNI policy: "@ + e@,
            SniPolicyError::InvalidAction(n) => "unknown or unspecified SNI action: "@
                + signed_decimal(n as int),
            SniPolicyError::InvalidPattern(p) => "invalid SNI pattern: "@ + p@,
        }
    }

    /// The error in words.
    pub fn message(&self) -> (r: String)
        ensures
            r@ == self.described(),
    {
        match self {
            SniPolicyError::Decode(e) => {
                let mut out: String = "failed to decode SNI policy: ".to_owned();
                out.append(e.as_str());
                out
            },
            SniPolicyError::InvalidAction(n) => {
                let mut out: String = "unknown or unspecified SNI action: ".to_owned();
                out.append(signed_decimal_text(*n).as_str());
                out
            },
            SniPolicyError::InvalidPattern(p) => {
                let mut out: String = "invalid SNI pattern: ".to_owned();
                out.append(p.as_str());
                out
            },
        }
    }
}

impl Default for SniTrafficPolicy {
    fn default() -> (r: Self)
        ensures
            r.rules@.len() == 0,
    {
        SniTrafficPolicy { rules: Vec::new() }
    }
}

impl SniTrafficPolicy {
    /// The policy of the rules that the control plane sent.
    pub fn from_messages(messages: Vec<SniRuleMessage>) -> (r: Result<Self, SniPolicyError>)
        ensures
            match r {
                Ok(policy) => messages_fault(messages@) is None && rules_of(
                    policy.rules@,
                    messages@,
                ),
                Err(e) => messages_fault(messages@) == Some(e@),
            },
    {
        let ghost all = messages@;
        let mut rest: Vec<SniRuleMessage> = messages;
        let mut rules: Vec<SniRule> = Vec::new();
        let count: usize = rest.len();
        let mut i: usize = 0;
        assert(all.skip(0) =~= all);
        while i < count
            invariant
                i <= count,
                count == all.len(),
                all == messages@,
                rest@ == all.skip(i as int),
                rules_of(rules@, all.take(i as int)),
                bad_action(all) == bad_action(all.skip(i as int)),
            decreases count - i,
        {
            let message: SniRuleMessage = rest.remove(0);
            assert(message == all[i as int]);
            assert(all.skip(i as int).drop_first() =~= all.skip(i + 1));
            assert(rest@ =~= all.skip(i + 1));
            let action: SniAction = match SniAction::from_number(message.action) {
                Some(action) => action,
                None => {
                    return Err(SniPolicyError::InvalidAction(message.action));
                },
            };
            let sni: Vec<String> = match message.sni {
                Some(names) => names,
                None => Vec::new(),
            };
            let ghost before = rules@;
            rules.push(SniRule { sni, action });
            i = i + 1;
            proof {
                assert forall|k: int|
                    #![trigger rules@[k]]
                    0 <= k < rules@.len() implies rule_of(rules@[k], all.take(i as int)[k]) by {
                    if k < before.len() {
                        assert(rules@[k] == before[k]);
                        assert(all.take(i as int)[k] == all.take(i - 1)[k]);
                    } else {
                        assert(rules@[k].sni@ =~= patterns_of(all[k]));
                    }
                }
            }
        }
        assert(all.take(count as int) =~= all);
        proof {
            lemma_bad_message(rules@, all);
        }
        let policy: SniTrafficPolicy = SniTrafficPolicy { rules };
        match policy.validate() {
            Ok(_) => Ok(policy),
            Err(e) => Err(e),
        }
    }

    /// Whether every pattern is one that a policy may hold; the first that is not
    /// comes back.
    pub fn validate(&self) -> (r: Result<(), SniPolicyError>)
        ensures
            match r {
                Ok(_) => bad_rule(self.rules@) is None,
                Err(SniPolicyError::InvalidPattern(p)) => bad_rule(self.rules@) == Some(p@),
                Err(_) => false,
            },
    {
        let mut i: usize = 0;
        assert(self.rules@.skip(0) =~= self.rules@);
        while i < self.rules.len()
            invariant
                i <= self.rules@.len(),
                bad_rule(self.rules@) == bad_rule(self.rules@.skip(i as int)),
            decreases self.rules@.len() - i,
        {
            assert(self.rules@.skip(i as int).drop_first() =~= self.rules@.skip(i + 1));
            assert(self.rules@.skip(i as int)[0] == self.rules@[i as int]);
            match check_patterns(&self.rules[i].sni) {
                Ok(_) => {},
                Err(e) => {
                    return Err(e);
                },
            }
            i = i + 1;
        }
        Ok(())
    }

    /// What to do with a stream for this server name. Without a name nothing is
    /// decided; a name that no rule speaks of passes.
    pub fn evaluate(&self, sni: &str) -> (r: Option<SniAction>)
        ensures
            r == self.decision(sni@),
    {
        let chars: Vec<char> = chars_of(sni);
        let name: &[char] = strip_dot(chars.as_slice());
        if name.len() == 0 {
            return None;
        }
        let mut i: usize = 0;
        assert(self.rules@.skip(0) =~= self.rules@);
        while i < self.rules.len()
            invariant
                i <= self.rules@.len(),
                name@ == without_dot(sni@),
                name@.len() > 0,
                decided(self.rules@, name@) == decided(self.rules@.skip(i as int), name@),
            decreases self.rules@.len() - i,
        {
            assert(self.rules@.skip(i as int).drop_first() =~= self.rules@.skip(i + 1));
            assert(self.rules@.skip(i as int)[0] == self.rules@[i as int]);
            if rule_fits(&self.rules[i], name) {
                return Some(self.rules[i].action);
            }
            i = i + 1;
        }
        Some(SniAction::Passthrough)
    }

    /// What to do with a stream for this server name.
    pub open spec fn decision(self, sni: Seq<char>) -> Option<SniAction> {
        if without_dot(sni).len() == 0 {
            None
        } else {
            Some(decided(self.rules@, without_dot(sni)))
        }
    }
}

/// The first rule that a name fits decides, and the rules behind it do not matter.
pub proof fn law_first_rule_decides(rules: Seq<SniRule>, name: Seq<char>, i: int)
    requires
        0 <= i < rules.len(),
        fits_any(rules[i].sni@, name),
        forall|k: int| 0 <= k < i ==> !fits_any((#[trigger] rules[k]).sni@, name),
    ensures
        decided(rules, name) == rules[i].action,
    decreases rules.len(),
{
    if i > 0 {
        let rest = rules.drop_first();
        assert(rest[i - 1] == rules[i]);
        assert forall|k: int| 0 <= k < i - 1 implies !fits_any((#[trigger] rest[k]).sni@, name) by {
            assert(rest[k] == rules[k + 1]);
        }
        law_first_rule_decides(rest, name, i - 1);
    }
}

/// A name that fits no rule passes.
pub proof fn law_unmatched_name_passes(rules: Seq<SniRule>, name: Seq<char>)
    requires
        forall|k: int| 0 <= k < rules.len() ==> !fits_any((#[trigger] rules[k]).sni@, name),
    ensures
        decided(rules, name) == SniAction::Passthrough,
    decreases rules.len(),
{
    if rules.len() > 0 {
        let rest = rules.drop_first();
        assert forall|k: int| 0 <= k < rest.len() implies !fits_any(
            (#[trigger] rest[k]).sni@,
            name,
        ) by {
            assert(rest[k] == rules[k + 1]);
        }
        law_unmatched_name_passes(rest, name);
    }
}

proof fn lemma_fits_folded(pattern: Seq<char>, a: Seq<char>, b: Seq<char>)
    requires
        same_folded(a, b),
        fits(pattern, a),
    ensures
        fits(pattern, b),
{
    let p = without_dot(pattern);
    if same_folded(p, a) {
        assert forall|i: int|
            #![trigger p[i]]
            #![trigger b[i]]
            0 <= i < p.len() implies folded(p[i]) == folded(b[i]) by {
            assert(folded(p[i]) == folded(a[i]));
        }
    } else if p != seq!['*'] {
        let suffix = p.drop_first();
        let x = a.skip(a.len() - suffix.len());
        let y = b.skip(b.len() - suffix.len());
        assert forall|i: int|
            #![trigger y[i]]
            #![trigger suffix[i]]
            0 <= i < y.len() implies folded(y[i]) == folded(suffix[i]) by {
            assert(folded(x[i]) == folded(suffix[i]));
            assert(folded(a[a.len() - suffix.len() + i]) == folded(b[b.len() - suffix.len() + i]));
        }
    }
}

proof fn lemma_decided_folded(rules: Seq<SniRule>, a: Seq<char>, b: Seq<char>)
    requires
        same_folded(a, b),
    ensures
        decided(rules, a) == decided(rules, b),
    decreases rules.len(),
{
    if rules.len() > 0 {
        let patterns = rules[0].sni@;
        if fits_any(patterns, a) {
            let i = choose|i: int| 0 <= i < patterns.len() && fits((#[trigger] patterns[i])@, a);
            lemma_fits_folded(patterns[i]@, a, b);
        }
        if fits_any(patterns, b) {
            let i = choose|i: int| 0 <= i < patterns.len() && fits((#[trigger] patterns[i])@, b);
            assert(same_folded(b, a));
            lemma_fits_folded(patterns[i]@, b, a);
        }
        lemma_decided_folded(rules.drop_first(), a, b);
    }
}

/// Neither the case of the name nor a dot at its end changes the decision.
pub proof fn law_case_and_dot_do_not_matter(policy: SniTrafficPolicy, a: Seq<char>, b: Seq<char>)
    requires
        same_folded(without_dot(a), without_dot(b)),
    ensures
        policy.decision(a) == policy.decision(b),
{
    lemma_decided_folded(policy.rules@, without_dot(a), without_dot(b));
}

/// Two characters are the same but for the case of an ASCII letter.
pub open spec fn same_letter(a: char, b: char) -> bool {
    ||| a == b
    ||| 'A' <= a <= 'Z' && b as int == a as int + 32
    ||| 'A' <= b <= 'Z' && a as int == b as int + 32
}

/// Two texts are the same but for the case of ASCII letters.
pub open spec fn same_letters(a: Seq<char>, b: Seq<char>) -> bool {
    a.len() == b.len() && forall|i: int| 0 <= i < a.len() ==> same_letter(#[trigger] a[i], b[i])
}

/// The text without a final dot.
pub open spec fn undotted(s: Seq<char>) -> Seq<char> {
    if s.len() > 0 && s[s.len() - 1] == '.' {
        s.take(s.len() - 1)
    } else {
        s
    }
}

/// The names that a pattern is for. A pattern that begins with an asterisk is for every
/// name that has something in place of the asterisk, and a lone asterisk for every
/// name; any other pattern is for that name alone.
pub open spec fn is_for(pattern: Seq<char>, name: Seq<char>) -> bool {
    let p = undotted(pattern);
    if p.len() > 0 && p[0] == '*' {
        ||| p.len() == 1
        ||| same_letters(p, name)
        ||| name.len() >= p.len() && same_letters(
            p.skip(1),
            name.skip(name.len() - (p.len() - 1)),
        )
    } else {
        same_letters(p, name)
    }
}

proof fn lemma_same_letters(a: Seq<char>, b: Seq<char>)
    ensures
        same_folded(a, b) <==> same_letters(a, b),
{
    if same_folded(a, b) {
        assert forall|i: int| 0 <= i < a.len() implies same_letter(#[trigger] a[i], b[i]) by {
            assert(folded(a[i]) == folded(b[i]));
            lemma_folded(a[i], b[i]);
        }
    }
    if same_letters(a, b) {
        assert forall|i: int|
            #![trigger a[i]]
            #![trigger b[i]]
            0 <= i < a.len() implies folded(a[i]) == folded(b[i]) by {
            assert(same_letter(a[i], b[i]));
            lemma_folded(a[i], b[i]);
        }
    }
}

proof fn lemma_folded(a: char, b: char)
    ensures
        folded(a) == folded(b) <==> same_letter(a, b),
{
}

/// A name fits a pattern exactly where the pattern is for it.
pub proof fn law_fits_what_the_pattern_is_for(pattern: Seq<char>, name: Seq<char>)
    ensures
        fits(pattern, name) <==> is_for(pattern, name),
{
    let p = undotted(pattern);
    assert(without_dot(pattern) =~= p);
    lemma_same_letters(p, name);
    if p.len() > 0 && p[0] == '*' {
        let suffix = p.drop_first();
        assert(p.skip(1) =~= suffix);
        if name.len() > suffix.len() {
            let tail = name.skip(name.len() - suffix.len());
            lemma_same_letters(tail, suffix);
            assert(same_letters(tail, suffix) <==> same_letters(suffix, tail)) by {
                assert(same_letters(tail, suffix) ==> same_letters(suffix, tail)) by {
                    if same_letters(tail, suffix) {
                        assert forall|i: int| 0 <= i < suffix.len() implies same_letter(
                            #[trigger] suffix[i],
                            tail[i],
                        ) by {
                            assert(same_letter(tail[i], suffix[i]));
                        }
                    }
                }
                assert(same_letters(suffix, tail) ==> same_letters(tail, suffix)) by {
                    if same_letters(suffix, tail) {
                        assert forall|i: int| 0 <= i < tail.len() implies same_letter(
                            #[trigger] tail[i],
                            suffix[i],
                        ) by {
                            assert(same_letter(suffix[i], tail[i]));
                        }
                    }
                }
            }
        }
        if p.len() == 1 {
            assert(p =~= seq!['*']);
        } else {
            assert(p != seq!['*']);
        }
    } else {
        assert(p != seq!['*']) by {
            if p == seq!['*'] {
                assert(p[0] == '*');
            }
        }
    }
}

/// A pattern that does not begin with an asterisk fits a name exactly where the two are
/// equal but for case and the pattern's final dot: no longer and no shorter name fits.
pub proof fn law_plain_pattern_fits_one_name(pattern: Seq<char>, name: Seq<char>)
    requires
        pattern.len() == 0 || pattern[0] != '*',
    ensures
        fits(pattern, name) <==> same_letters(undotted(pattern), name),
        name.len() != pattern.len() && name.len() + 1 != pattern.len() ==> !fits(pattern, name),
        pattern.len() > 0 && pattern[pattern.len() - 1] != '.' ==> fits(pattern, pattern),
{
    law_fits_what_the_pattern_is_for(pattern, name);
    law_fits_what_the_pattern_is_for(pattern, pattern);
}

/// What stands in place of the asterisk of a pattern is up to the name, but something
/// must: the name that the pattern leaves over does not fit by itself.
pub proof fn law_asterisk_stands_for_something(suffix: Seq<char>, head: Seq<char>)
    requires
        suffix.len() > 1,
        suffix[suffix.len() - 1] != '.',
        suffix[0] != '*',
    ensures
        head.len() > 0 ==> fits(seq!['*'] + suffix, head + suffix),
        !fits(seq!['*'] + suffix, suffix),
{
    let pattern = seq!['*'] + suffix;
    assert(undotted(pattern) == pattern);
    law_fits_what_the_pattern_is_for(pattern, head + suffix);
    law_fits_what_the_pattern_is_for(pattern, suffix);
    assert(pattern.skip(1) =~= suffix);
    assert((head + suffix).skip((head + suffix).len() - suffix.len()) =~= suffix);
}

/// Whether a rule has a pattern that is for the name.
pub open spec fn rule_is_for(rule: SniRule, name: Seq<char>) -> bool {
    exists|i: int| 0 <= i < rule.sni@.len() && is_for((#[trigger] rule.sni@[i])@, name)
}

proof fn lemma_rule_is_for(rule: SniRule, name: Seq<char>)
    ensures
        fits_any(rule.sni@, name) <==> rule_is_for(rule, name),
{
    assert forall|i: int| 0 <= i < rule.sni@.len() implies fits(
        (#[trigger] rule.sni@[i])@,
        name,
    ) == is_for(rule.sni@[i]@, name) by {
        law_fits_what_the_pattern_is_for(rule.sni@[i]@, name);
    }
    if fits_any(rule.sni@, name) {
        let i = choose|i: int| 0 <= i < rule.sni@.len() && fits((#[trigger] rule.sni@[i])@, name);
        assert(is_for(rule.sni@[i]@, name));
    }
    if rule_is_for(rule, name) {
        let i = choose|i: int|
            0 <= i < rule.sni@.len() && is_for((#[trigger] rule.sni@[i])@, name);
        assert(fits(rule.sni@[i]@, name));
    }
}

/// A server name is decided by the first rule with a pattern that is for it; where there
/// is none the stream passes, and without a name nothing is decided.
pub proof fn law_what_happens_to_a_name(policy: SniTrafficPolicy, sni: Seq<char>, i: int)
    ensures
        undotted(sni).len() == 0 ==> policy.decision(sni) is None,
        undotted(sni).len() > 0 && 0 <= i < policy.rules@.len() && rule_is_for(
            policy.rules@[i],
            undotted(sni),
        ) && (forall|k: int|
            0 <= k < i ==> !rule_is_for(#[trigger] policy.rules@[k], undotted(sni)))
            ==> policy.decision(sni) == Some(policy.rules@[i].action),
        undotted(sni).len() > 0 && (forall|k: int|
            0 <= k < policy.rules@.len() ==> !rule_is_for(
                #[trigger] policy.rules@[k],
                undotted(sni),
            )) ==> policy.decision(sni) == Some(SniAction::Passthrough),
{
    let name = undotted(sni);
    assert(without_dot(sni) =~= name);
    let rules = policy.rules@;
    assert forall|k: int| 0 <= k < rules.len() implies fits_any((#[trigger] rules[k]).sni@, name)
        == rule_is_for(rules[k], name) by {
        lemma_rule_is_for(rules[k], name);
    }
    if 0 <= i < rules.len() && rule_is_for(rules[i], name) && (forall|k: int|
        0 <= k < i ==> !rule_is_for(#[trigger] rules[k], name)) {
        law_first_rule_decides(rules, name, i);
    }
    if forall|k: int| 0 <= k < rules.len() ==> !rule_is_for(#[trigger] rules[k], name) {
        law_unmatched_name_passes(rules, name);
    }
}

/// A part of a host name: up to 63 letters, digits and hyphens of ASCII, with no hyphen
/// at either end.
pub open spec fn is_label(part: Seq<char>) -> bool {
    &&& 1 <= part.len() && part.len() <= 63
    &&& part[0] != '-' && part[part.len() - 1] != '-'
    &&& forall|i: int|
        0 <= i < part.len() ==> {
            let c = #[trigger] part[i];
            'a' <= c <= 'z' || 'A' <= c <= 'Z' || '0' <= c <= '9' || c == '-'
        }
}

/// A host name: labels with dots between them, of at most 253 characters together.
pub open spec fn is_host(name: Seq<char>) -> bool {
    name.len() <= 253 && forall|i: int|
        0 <= i < split(name, '.').len() ==> is_label(#[trigger] split(name, '.')[i])
}

/// A policy may hold a lone asterisk, and the host names of at most 253 characters, with
/// or without an asterisk for their first part and a dot at their end.
pub proof fn law_valid_patterns(pattern: Seq<char>)
    ensures
        ({
            let name = undotted(pattern);
            let starred = name.len() >= 2 && name[0] == '*' && name[1] == '.';
            valid_pattern(pattern) <==> name == seq!['*'] || (starred && is_host(name.skip(2))) || (
            !starred && is_host(name))
        }),
{
    assert(without_dot(pattern) =~= undotted(pattern));
    let host = host_part(without_dot(pattern));
    let parts = split(host, '.');
    crate::text::law_split_parts(host, '.');
    assert forall|i: int| 0 <= i < parts.len() implies valid_label(#[trigger] parts[i])
        == is_label(parts[i]) by {
        let part = parts[i];
        if valid_label(part) {
            assert forall|k: int| 0 <= k < part.len() implies ({
                let c = #[trigger] part[k];
                'a' <= c <= 'z' || 'A' <= c <= 'Z' || '0' <= c <= '9' || c == '-'
            }) by {
                assert(is_alphanumeric(part[k]) || part[k] == '-');
            }
        }
        if is_label(part) {
            assert forall|k: int| 0 <= k < part.len() implies is_alphanumeric(#[trigger] part[k])
                || part[k] == '-' by {}
        }
    }
    if host.len() == 0 {
        assert(parts =~= seq![Seq::empty()]);
        assert(!is_label(split(host, '.')[0]));
    }
    if forall|i: int| 0 <= i < parts.len() ==> valid_label(#[trigger] parts[i]) {
        assert forall|i: int| 0 <= i < parts.len() implies is_label(#[trigger] parts[i]) by {
            assert(valid_label(parts[i]));
        }
    }
    if forall|i: int| 0 <= i < parts.len() ==> is_label(#[trigger] parts[i]) {
        assert forall|i: int| 0 <= i < parts.len() implies valid_label(#[trigger] parts[i]) by {
            assert(is_label(parts[i]));
        }
    }
    assert(is_host(host) <==> 1 <= host.len() <= 253 && forall|i: int|
        0 <= i < parts.len() ==> valid_label(#[trigger] parts[i]));
}

/// The characters of a pattern that a policy may hold: letters, digits, hyphens and dots
/// of ASCII, but for an asterisk at its very start, which a dot follows.
pub proof fn law_valid_patterns_are_host_names(pattern: Seq<char>, i: int)
    requires
        valid_pattern(pattern),
        0 <= i < pattern.len(),
    ensures
        pattern.len() <= 256,
        ({
            let c = pattern[i];
            ||| 'a' <= c <= 'z'
            ||| 'A' <= c <= 'Z'
            ||| '0' <= c <= '9'
            ||| c == '-'
            ||| c == '.'
            ||| c == '*' && i == 0
        }),
        pattern[0] == '*' ==> pattern.len() == 1 || pattern[1] == '.',
        pattern[0] != '.',
        pattern[0] != '-',
{
    let name = without_dot(pattern);
    if name == seq!['*'] {
        assert(name[0] == '*');
        assert(pattern[0] == '*');
        if i > 0 {
            assert(pattern[i] == '.');
        }
    } else {
        let h = host_part(name);
        let labels = split(h, '.');
        crate::text::law_split_parts(h, '.');
        assert(valid_label(labels[0]));
        lemma_first_part(h);
        let offset = name.len() - h.len();
        assert forall|k: int| 0 <= k < h.len() implies is_alphanumeric(#[trigger] h[k]) || h[k]
            == '-' || h[k] == '.' by {
            if h[k] != '.' {
                lemma_part_of(h, k);
                let j = choose|j: int|
                    0 <= j < labels.len() && (#[trigger] labels[j]).contains(h[k]);
                assert(valid_label(labels[j]));
                let n = choose|n: int| 0 <= n < labels[j].len() && labels[j][n] == h[k];
                assert(is_alphanumeric(labels[j][n]) || labels[j][n] == '-');
            }
        }
        if i < name.len() {
            assert(pattern[i] == name[i]);
            if i >= offset {
                assert(name[i] == h[i - offset]);
            }
        } else {
            assert(pattern[i] == '.');
        }
        assert(pattern[0] == name[0]);
        if offset == 0 {
            assert(name[0] == h[0]);
            assert(h[0] == labels[0][0]);
        }
    }
}

proof fn lemma_first_part(s: Seq<char>)
    ensures
        split(s, '.').len() >= 1,
        split(s, '.').len() == 1 ==> split(s, '.')[0] == s,
        split(s, '.')[0].len() > 0 ==> s.len() > 0 && s[0] == split(s, '.')[0][0],
    decreases s.len(),
{
    if s.len() > 0 {
        let before = split(s.drop_last(), '.');
        lemma_first_part(s.drop_last());
        if s.last() != '.' && before.len() == 1 {
            assert(split(s, '.')[0] =~= s);
        }
    } else {
        assert(split(s, '.')[0] =~= s);
    }
}

proof fn lemma_part_of(s: Seq<char>, k: int)
    requires
        0 <= k < s.len(),
        s[k] != '.',
    ensures
        exists|j: int| 0 <= j < split(s, '.').len() && (#[trigger] split(s, '.')[j]).contains(s[k]),
    decreases s.len(),
{
    let before = split(s.drop_last(), '.');
    crate::text::law_split_parts(s.drop_last(), '.');
    let after = split(s, '.');
    if k == s.len() - 1 {
        let j = after.len() - 1;
        assert(after[j] == before.last().push(s.last()));
        assert(after[j][before.last().len() as int] == s[k]);
        assert(after[j].contains(s[k]));
    } else {
        assert(s.drop_last()[k] == s[k]);
        lemma_part_of(s.drop_last(), k);
        let j = choose|j: int| 0 <= j < before.len() && (#[trigger] before[j]).contains(s[k]);
        let n = choose|n: int| 0 <= n < before[j].len() && before[j][n] == s[k];
        if s.last() == '.' || j < before.len() - 1 {
            assert(after[j] == before[j]);
        } else {
            assert(after[j] == before[j].push(s.last()));
            assert(after[j][n] == s[k]);
        }
        assert(after[j].contains(s[k]));
    }
}

/// Whether a policy may hold the pattern: a lone asterisk, or a host name with or
/// without an asterisk for its first part, and with or without a dot at its end.
pub open spec fn readable_pattern(pattern: Seq<char>) -> bool {
    let name = undotted(pattern);
    let starred = name.len() >= 2 && name[0] == '*' && name[1] == '.';
    ||| name == seq!['*']
    ||| starred && is_host(name.skip(2))
    ||| !starred && is_host(name)
}

/// Whether a rule can be read: its action is one of those known by their numbers, and a
/// policy may hold all of its patterns.
pub open spec fn readable_rule(message: SniRuleMessage) -> bool {
    &&& 1 <= message.action <= 3
    &&& message.sni matches Some(names) ==> forall|i: int|
        0 <= i < names@.len() ==> readable_pattern((#[trigger] names@[i])@)
}

proof fn lemma_readable_patterns(patterns: Seq<String>)
    ensures
        bad_pattern(patterns) is None <==> forall|i: int|
            0 <= i < patterns.len() ==> readable_pattern((#[trigger] patterns[i])@),
    decreases patterns.len(),
{
    if patterns.len() > 0 {
        let rest = patterns.drop_first();
        lemma_readable_patterns(rest);
        law_valid_patterns(patterns[0]@);
        if forall|i: int| 0 <= i < rest.len() ==> readable_pattern((#[trigger] rest[i])@) {
            assert forall|i: int| 1 <= i < patterns.len() implies readable_pattern(
                (#[trigger] patterns[i])@,
            ) by {
                assert(rest[i - 1] == patterns[i]);
            }
        }
        if forall|i: int| 0 <= i < patterns.len() ==> readable_pattern((#[trigger] patterns[i])@) {
            assert forall|i: int| 0 <= i < rest.len() implies readable_pattern(
                (#[trigger] rest[i])@,
            ) by {
                assert(rest[i] == patterns[i + 1]);
            }
        }
    }
}

/// Rules on server names are accepted exactly where all of them can be read.
pub proof fn law_accepted_rules(messages: Seq<SniRuleMessage>)
    ensures
        messages_fault(messages) is None <==> forall|i: int|
            0 <= i < messages.len() ==> readable_rule(#[trigger] messages[i]),
    decreases messages.len(),
{
    if messages.len() > 0 {
        let rest = messages.drop_first();
        law_accepted_rules(rest);
        lemma_readable_patterns(patterns_of(messages[0]));
        if messages_fault(messages) is None {
            assert forall|i: int| 0 <= i < messages.len() implies readable_rule(
                #[trigger] messages[i],
            ) by {
                if i > 0 {
                    assert(rest[i - 1] == messages[i]);
                }
            }
        }
        if forall|i: int| 0 <= i < messages.len() ==> readable_rule(#[trigger] messages[i]) {
            assert(readable_rule(messages[0]));
            assert forall|i: int| 0 <= i < rest.len() implies readable_rule(
                #[trigger] rest[i],
            ) by {
                assert(rest[i] == messages[i + 1]);
            }
        }
    }
}

/// What came in as a rule does what was sent, to the names that the patterns sent are
/// for: number one ends the encryption here, number two lets the stream pass and number
/// three refuses it.
pub proof fn law_rules_do_what_was_sent(rule: SniRule, message: SniRuleMessage)
    requires
        rule_of(rule, message),
    ensures
        rule.action is TlsTermination <==> message.action == 1,
        rule.action is Passthrough <==> message.action == 2,
        rule.action is Deny <==> message.action == 3,
        message.sni is None ==> rule.sni@.len() == 0,
        message.sni matches Some(names) ==> rule.sni@ == names@,
{
}

/// A server-name policy that is refused is told to be so with what stands in it that is
/// not accepted.
pub proof fn law_refused_rules_in_words(text: String, action: i32)
    ensures
        SniPolicyError::Decode(text).described() == "failed to decode SNI policy: "@ + text@,
        SniPolicyError::InvalidAction(action).described() == "unknown or unspecified SNI action: "@
            + signed_decimal(action as int),
        SniPolicyError::InvalidPattern(text).described() == "invalid SNI pattern: "@ + text@,
{
}

} // verus!
