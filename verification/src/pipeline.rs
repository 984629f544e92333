//! Pipeline steps, the DSL parser and formatter, a builder, and the executor.

use vstd::prelude::*;
use vstd::string::*;
use crate::strutil::{trim, trim_seq, find_char_in, find_char, find_sub_in, find_sub, str_eq,
    lemma_find_sub_props};

pub mod transform;
pub mod dsl;
pub mod executor;

pub use transform::{Transform, TransformError, IdentityTransform, JsonExtractorTransform,
    SummarizerTransform, FallbackBehavior, JsonExtractorConfig, TransformKind};
pub use dsl::ParseError;
pub use executor::{ExecutionConfig, StepResult, PipelineExecutor, PipelineError, StepObserver,
    NoopObserver, RetryWaiter, NoWait};

use dsl::{parse_dsl, parse_step_seq, parse_segments, split_arrows, arrow, format_steps,
    format_rest, step_text, fmt_sep};

verus! {

/// One unit of work: which provider to call, what to ask of it, an optional
/// static context folded into the prompt, and an optional response transform.
#[derive(Debug)]
pub struct PipelineStep {
    pub provider: String,
    pub action: String,
    pub context: Option<String>,
    pub transform: Option<TransformKind>,
}

impl PipelineStep {
    /// The static context, if set.
    pub open spec fn ctx_view(&self) -> Option<Seq<char>> {
        match self.context {
            Some(ref s) => Some(s@),
            None => None,
        }
    }

    /// The transform, if set.
    pub open spec fn transform_view(&self) -> Option<TransformKind> {
        self.transform
    }

    /// Whether a transform is set.
    pub open spec fn has_transform_spec(&self) -> bool {
        self.transform_view() is Some
    }

    /// A step with no static context and no transform.
    pub fn new(provider: &str, action: &str) -> (r: Self)
        ensures
            r.provider@ == provider@,
            r.action@ == action@,
            r.ctx_view() is None,
            r.transform_view() is None,
    {
        PipelineStep {
            provider: String::from_str(provider),
            action: String::from_str(action),
            context: None,
            transform: None,
        }
    }

    /// Set the static context for this step.
    pub fn set_context(&mut self, context: &str)
        ensures
            final(self).ctx_view() == Some(context@),
            final(self).provider == old(self).provider,
            final(self).action == old(self).action,
            final(self).transform_view() == old(self).transform_view(),
    {
        self.context = Some(String::from_str(context));
    }

    /// The static context, cloned out.
    pub fn get_context(&self) -> (r: Option<String>)
        ensures
            match r {
                Some(s) => self.ctx_view() == Some(s@),
                None => self.ctx_view() is None,
            },
    {
        match &self.context {
            Some(s) => Some(s.clone()),
            None => None,
        }
    }

    /// The same step with a static context.
    pub fn with_context(self, context: &str) -> (r: Self)
        ensures
            r.ctx_view() == Some(context@),
            r.provider == self.provider,
            r.action == self.action,
            r.transform_view() == self.transform_view(),
    {
        let mut s = self;
        s.set_context(context);
        s
    }

    /// Set the transform for this step.
    pub fn set_transform(&mut self, transform: TransformKind)
        ensures
            final(self).transform_view() == Some(transform),
            final(self).provider == old(self).provider,
            final(self).action == old(self).action,
            final(self).ctx_view() == old(self).ctx_view(),
    {
        self.transform = Some(transform);
    }

    /// The same step with a transform.
    pub fn with_transform(self, transform: TransformKind) -> (r: Self)
        ensures
            r.transform_view() == Some(transform),
            r.provider == self.provider,
            r.action == self.action,
            r.ctx_view() == self.ctx_view(),
    {
        let mut s = self;
        s.set_transform(transform);
        s
    }

    /// Whether this step carries a transform.
    pub fn has_transform(&self) -> (r: bool)
        ensures
            r == self.has_transform_spec(),
    {
        self.transform.is_some()
    }

    /// The transform, cloned out.
    pub fn get_transform(&self) -> (r: Option<TransformKind>)
        ensures
            r == self.transform_view(),
    {
        match &self.transform {
            Some(t) => Some(t.clone()),
            None => None,
        }
    }

    /// The step written back as `provider:action`.
    pub fn to_text(&self) -> (r: String)
        ensures
            r@ == step_text((self.provider@, self.action@)),
    {
        let mut s = self.provider.clone();
        s.append(":");
        s.append(self.action.as_str());
        proof {
            reveal_strlit(":");
            assert(":"@ =~= seq![':']);
            assert(self.provider@ + seq![':'] + self.action@ =~= (self.provider@ + seq![':'])
                + self.action@);
        }
        s
    }
}

impl Clone for PipelineStep {
    fn clone(&self) -> (r: Self)
        ensures
            r == *self,
    {
        PipelineStep {
            provider: self.provider.clone(),
            action: self.action.clone(),
            context: match &self.context {
                Some(s) => Some(s.clone()),
                None => None,
            },
            transform: match &self.transform {
                Some(t) => Some(t.clone()),
                None => None,
            },
        }
    }
}

impl PartialEq for PipelineStep {
    /// Steps are equal when provider, action and context agree and both have
    /// or both lack a transform; the transform itself is not compared.
    fn eq(&self, other: &Self) -> (r: bool) {
        self.provider == other.provider && self.action == other.action && (match (
            &self.context,
            &other.context,
        ) {
            (Some(a), Some(b)) => str_eq(a.as_str(), b.as_str()),
            (None, None) => true,
            _ => false,
        }) && self.transform.is_some() == other.transform.is_some()
    }
}

impl vstd::std_specs::cmp::PartialEqSpecImpl for PipelineStep {
    open spec fn obeys_eq_spec() -> bool {
        true
    }

    open spec fn eq_spec(&self, other: &Self) -> bool {
        self.provider@ == other.provider@ && self.action@ == other.action@ && self.ctx_view()
            == other.ctx_view() && self.has_transform_spec() == other.has_transform_spec()
    }
}

/// The views of a step list's providers and actions.
pub open spec fn pairs_of(steps: Seq<PipelineStep>) -> Seq<(Seq<char>, Seq<char>)> {
    steps.map(|i: int, s: PipelineStep| (s.provider@, s.action@))
}

/// A pipeline step names this provider.
pub open spec fn known_has(known: Seq<Seq<char>>, p: Seq<char>) -> bool {
    exists|i: int| 0 <= i < known.len() && known[i] == p
}

/// The first step whose provider is not known, if any.
pub open spec fn first_unknown(providers: Seq<Seq<char>>, known: Seq<Seq<char>>) -> Option<int>
    decreases providers.len(),
{
    if providers.len() == 0 {
        None
    } else if !known_has(known, providers[0]) {
        Some(0int)
    } else {
        match first_unknown(providers.skip(1), known) {
            None => None,
            Some(i) => Some(i + 1),
        }
    }
}

/// The providers of a step list.
pub open spec fn providers_of(steps: Seq<PipelineStep>) -> Seq<Seq<char>> {
    steps.map(|i: int, s: PipelineStep| s.provider@)
}

/// A DSL step names a provider that is not registered.
#[derive(Debug)]
pub struct UnknownProviderError {
    pub provider: String,
    pub known: Vec<String>,
}

/// One provider name in quotes.
pub open spec fn quoted_name(n: Seq<char>) -> Seq<char> {
    seq!['"'] + n + seq!['"']
}

/// The names after the first, each preceded by a comma.
pub open spec fn quoted_rest(names: Seq<Seq<char>>) -> Seq<char>
    decreases names.len(),
{
    if names.len() == 0 {
        Seq::empty()
    } else {
        ", "@ + quoted_name(names[0]) + quoted_rest(names.skip(1))
    }
}

/// The known provider names as a quoted, comma-separated list.
pub open spec fn quoted_names(names: Seq<Seq<char>>) -> Seq<char> {
    if names.len() == 0 {
        Seq::empty()
    } else {
        quoted_name(names[0]) + quoted_rest(names.skip(1))
    }
}

impl UnknownProviderError {
    /// The description names the offending provider and lists the full known
    /// set.
    #[verifier::loop_isolation(false)]
    pub fn message(&self) -> (r: String)
        ensures
            r@ == "Unknown provider: '"@ + self.provider@ + "'. Valid providers are: ["@
                + quoted_names(self.known.deep_view()) + "]"@,
    {
        let ghost names = self.known.deep_view();
        let mut s = String::from_str("Unknown provider: '");
        s.append(self.provider.as_str());
        s.append("'. Valid providers are: [");
        let ghost header = s@;
        proof {
            reveal_strlit("\"");
            assert("\""@ =~= seq!['"']);
        }
        let n = self.known.len();
        if n > 0 {
            s.append("\"");
            s.append(self.known[0].as_str());
            s.append("\"");
            proof {
                assert(names[0] == self.known@[0]@);
                assert(s@ =~= header + quoted_name(names[0]));
            }
            let mut i: usize = 1;
            proof {
                assert(names.skip(1).len() == 0 ==> quoted_rest(names.skip(1))
                    == Seq::<char>::empty());
                assert(s@ + quoted_rest(names.skip(1)) =~= header + quoted_names(names)) by {
                    assert(quoted_names(names) == quoted_name(names[0]) + quoted_rest(
                        names.skip(1),
                    ));
                }
            }
            while i < n
                invariant
                    1 <= i <= n,
                    s@ + quoted_rest(names.skip(i as int)) == header + quoted_names(names),
                decreases n - i,
            {
                proof {
                    assert(names.skip(i as int)[0] == names[i as int]);
                    assert(names[i as int] == self.known@[i as int]@);
                }
                let ghost before = s@;
                s.append(", ");
                s.append("\"");
                s.append(self.known[i].as_str());
                s.append("\"");
                proof {
                    assert(names.skip(i as int).skip(1) =~= names.skip(i as int + 1));
                    assert(s@ + quoted_rest(names.skip(i as int + 1)) =~= before + (", "@
                        + quoted_name(names[i as int]) + quoted_rest(names.skip(i as int + 1))));
                }
                i = i + 1;
            }
            proof {
                assert(names.skip(n as int) =~= Seq::<Seq<char>>::empty());
                assert(s@ + Seq::<char>::empty() =~= s@);
            }
        } else {
            proof {
                assert(header + quoted_names(names) =~= header);
            }
        }
        s.append("]");
        proof {
            assert(s@ =~= "Unknown provider: '"@ + self.provider@
                + "'. Valid providers are: ["@ + quoted_names(names) + "]"@);
        }
        s
    }
}

/// Compiles DSL strings into step lists and writes step lists back.
pub struct PipelineParser;

impl PipelineParser {
    /// Parse one segment into a step: trim it, split at the first `:`, and
    /// trim both halves; fail exactly as [`parse_step_seq`] says.
    fn parse_step(part: &str) -> (r: Result<PipelineStep, ParseError>)
        ensures
            match (r, parse_step_seq(trim_seq(part@))) {
                (Ok(step), Ok(p)) => step.provider@ == p.0 && step.action@ == p.1
                    && step.ctx_view() is None && step.transform_view() is None,
                (Err(e1), Err(e2)) => e1 == e2,
                _ => false,
            },
    {
        let seg = trim(part);
        let n = seg.unicode_len();
        if n == 0 {
            return Err(ParseError::EmptySegment);
        }
        match find_char_in(seg, ':') {
            None => Err(ParseError::MissingColon),
            Some(i) => {
                proof {
                    crate::strutil::lemma_find_char_props(seg@, ':');
                }
                let provider = trim(seg.substring_char(0, i));
                let action = trim(seg.substring_char(i + 1, n));
                proof {
                    assert(seg@.subrange(0, i as int) =~= seg@.take(i as int));
                    assert(seg@.subrange(i as int + 1, n as int) =~= seg@.skip(i as int + 1));
                }
                if provider.unicode_len() == 0 {
                    Err(ParseError::EmptyProvider)
                } else if action.unicode_len() == 0 {
                    Err(ParseError::EmptyAction)
                } else {
                    Ok(PipelineStep::new(provider, action))
                }
            },
        }
    }

    /// Parse a pipeline DSL string of the form
    /// `provider:action -> provider:action -> ...` into its steps, or report
    /// the first fault. The result is exactly what [`parse_dsl`] says: `Ok`
    /// if and only if the trimmed input is non-empty and every arrow-separated
    /// segment has a non-empty provider and action around its first `:`.
    #[verifier::loop_isolation(false)]
    pub fn parse(input: &str) -> (r: Result<Vec<PipelineStep>, ParseError>)
        ensures
            match (r, parse_dsl(input@)) {
                (Ok(steps), Ok(specs)) => steps@.len() == specs.len() && (forall|i: int|
                    0 <= i < specs.len() ==> (#[trigger] steps@[i]).provider@ == specs[i].0
                        && steps@[i].action@ == specs[i].1 && steps@[i].ctx_view() is None
                        && !steps@[i].has_transform_spec()),
                (Err(e1), Err(e2)) => e1 == e2,
                _ => false,
            },
    {
        proof {
            reveal_strlit("->");
            assert("->"@ =~= arrow());
        }
        let trimmed = trim(input);
        if trimmed.unicode_len() == 0 {
            return Err(ParseError::EmptyPipeline);
        }
        let ghost whole = split_arrows(trimmed@);
        let mut steps: Vec<PipelineStep> = Vec::new();
        let mut rest: &str = trimmed;
        proof {
            assert(parse_segments(whole) == (match parse_segments(split_arrows(rest@)) {
                Ok(rest_specs) => Ok::<Seq<(Seq<char>, Seq<char>)>, ParseError>(
                    pairs_of(steps@) + rest_specs,
                ),
                Err(e) => Err(e),
            })) by {
                assert(pairs_of(steps@) =~= Seq::<(Seq<char>, Seq<char>)>::empty());
                if parse_segments(whole) is Ok {
                    assert(pairs_of(steps@) + parse_segments(whole).unwrap() =~= parse_segments(
                        whole,
                    ).unwrap());
                }
            }
        }
        loop
            invariant
                parse_segments(whole) == (match parse_segments(split_arrows(rest@)) {
                    Ok(rest_specs) => Ok::<Seq<(Seq<char>, Seq<char>)>, ParseError>(
                        pairs_of(steps@) + rest_specs,
                    ),
                    Err(e) => Err(e),
                }),
                forall|i: int|
                    0 <= i < steps@.len() ==> (#[trigger] steps@[i]).ctx_view() is None && !(
                    steps@[i]).has_transform_spec(),
            decreases rest@.len(),
        {
            let ghost rest0 = rest@;
            match find_sub_in(rest, "->") {
                None => {
                    proof {
                        assert(split_arrows(rest0) == seq![rest0]);
                        assert(split_arrows(rest0)[0] == rest0);
                        assert(split_arrows(rest0).skip(1) =~= Seq::<Seq<char>>::empty());
                    }
                    match Self::parse_step(rest) {
                        Err(e) => {
                            return Err(e);
                        },
                        Ok(step) => {
                            let ghost before = steps@;
                            steps.push(step);
                            proof {
                                let p = parse_step_seq(trim_seq(rest0)).unwrap();
                                assert(pairs_of(steps@) =~= pairs_of(before) + seq![
                                    (step.provider@, step.action@)
                                ]);
                                assert(seq![rest0][0] == rest0);
                                assert(seq![rest0].skip(1) =~= Seq::<Seq<char>>::empty());
                                assert(parse_segments(Seq::<Seq<char>>::empty()) == Ok::<
                                    Seq<(Seq<char>, Seq<char>)>,
                                    ParseError,
                                >(Seq::empty()));
                                assert(parse_segments(seq![rest0]) == Ok::<
                                    Seq<(Seq<char>, Seq<char>)>,
                                    ParseError,
                                >(seq![p] + Seq::<(Seq<char>, Seq<char>)>::empty()));
                                assert(seq![p] + Seq::<(Seq<char>, Seq<char>)>::empty() =~= seq![
                                    p
                                ]);
                                assert(pairs_of(before) + seq![p] =~= pairs_of(steps@));
                            }
                            return Ok(steps);
                        },
                    }
                },
                Some(i) => {
                    proof {
                        assert(split_arrows(rest0) == seq![rest0.take(i as int)] + split_arrows(
                            rest0.skip(i as int + 2),
                        ));
                        assert(split_arrows(rest0)[0] == rest0.take(i as int));
                        assert(split_arrows(rest0).skip(1) =~= split_arrows(
                            rest0.skip(i as int + 2),
                        ));
                        lemma_find_sub_props(rest0, arrow());
                    }
                    let n = rest.unicode_len();
                    let seg = rest.substring_char(0, i);
                    proof {
                        assert(seg@ =~= rest0.take(i as int));
                    }
                    match Self::parse_step(seg) {
                        Err(e) => {
                            return Err(e);
                        },
                        Ok(step) => {
                            let ghost before = steps@;
                            steps.push(step);
                            rest = rest.substring_char(i + 2, n);
                            proof {
                                let p = parse_step_seq(trim_seq(seg@)).unwrap();
                                assert(rest@ =~= rest0.skip(i as int + 2));
                                assert(pairs_of(steps@) =~= pairs_of(before) + seq![p]);
                                if parse_segments(split_arrows(rest@)) is Ok {
                                    assert((pairs_of(before) + seq![p]) + parse_segments(
                                        split_arrows(rest@),
                                    ).unwrap() =~= pairs_of(before) + (seq![p] + parse_segments(
                                        split_arrows(rest@),
                                    ).unwrap()));
                                }
                            }
                        },
                    }
                },
            }
        }
    }

    /// Check every step's provider against the known set; the first unknown
    /// one is reported, with the known set attached.
    #[verifier::loop_isolation(false)]
    pub fn validate_providers(steps: &Vec<PipelineStep>, valid_providers: &Vec<String>) -> (r:
        Result<(), UnknownProviderError>)
        ensures
            r is Ok <==> first_unknown(providers_of(steps@), valid_providers.deep_view()) is None,
            r matches Err(e) ==> {
                let i = first_unknown(providers_of(steps@), valid_providers.deep_view()).unwrap();
                &&& 0 <= i < steps@.len()
                &&& e.provider@ == steps@[i].provider@
                &&& e.known.deep_view() == valid_providers.deep_view()
            },
    {
        let ghost provs = providers_of(steps@);
        let ghost known = valid_providers.deep_view();
        let n = steps.len();
        let mut i: usize = 0;
        proof {
            assert(provs.skip(0) =~= provs);
        }
        while i < n
            invariant
                i <= n,
                first_unknown(provs, known) == (match first_unknown(provs.skip(i as int), known) {
                    None => None::<int>,
                    Some(k) => Some(k + i),
                }),
            decreases n - i,
        {
            proof {
                assert(provs.skip(i as int)[0] == provs[i as int]);
                assert(provs[i as int] == steps@[i as int].provider@);
            }
            if !Self::names_contain(valid_providers, steps[i].provider.as_str()) {
                let mut known_copy: Vec<String> = Vec::new();
                let m = valid_providers.len();
                let mut j: usize = 0;
                while j < m
                    invariant
                        j <= m,
                        m == valid_providers@.len(),
                        known_copy@.len() == j,
                        forall|k: int|
                            0 <= k < j ==> (#[trigger] known_copy@[k])@ == valid_providers@[k]@,
                    decreases m - j,
                {
                    known_copy.push(valid_providers[j].clone());
                    j = j + 1;
                }
                proof {
                    assert(known_copy.deep_view() =~= valid_providers.deep_view());
                }
                return Err(
                    UnknownProviderError { provider: steps[i].provider.clone(), known: known_copy },
                );
            }
            proof {
                assert(provs.skip(i as int).skip(1) =~= provs.skip(i as int + 1));
            }
            i = i + 1;
        }
        proof {
            assert(provs.skip(n as int) =~= Seq::<Seq<char>>::empty());
        }
        Ok(())
    }

    /// Whether one of the names matches `p`.
    fn names_contain(names: &Vec<String>, p: &str) -> (r: bool)
        ensures
            r == known_has(names.deep_view(), p@),
    {
        let n = names.len();
        let mut i: usize = 0;
        while i < n
            invariant
                i <= n,
                n == names@.len(),
                forall|j: int| 0 <= j < i ==> names.deep_view()[j] != p@,
            decreases n - i,
        {
            if str_eq(names[i].as_str(), p) {
                proof {
                    assert(names.deep_view()[i as int] == p@);
                }
                return true;
            }
            i = i + 1;
        }
        proof {
            if known_has(names.deep_view(), p@) {
                let j = choose|j: int|
                    0 <= j < names.deep_view().len() && names.deep_view()[j] == p@;
                assert(names.deep_view()[j] != p@);
            }
        }
        false
    }

    /// Write a step list back as a DSL string: `provider:action` joined by
    /// ` -> `. On the output of `parse` this is a right inverse: see
    /// [`dsl::lemma_parse_format_roundtrip`].
    #[verifier::loop_isolation(false)]
    pub fn format(steps: &Vec<PipelineStep>) -> (r: String)
        ensures
            r@ == format_steps(pairs_of(steps@)),
    {
        let ghost pairs = pairs_of(steps@);
        let n = steps.len();
        if n == 0 {
            let r = String::new();
            return r;
        }
        let mut out = steps[0].to_text();
        proof {
            assert(pairs[0] == (steps@[0].provider@, steps@[0].action@));
            assert(pairs.skip(1).len() == 0 ==> format_rest(pairs.skip(1)) == Seq::<char>::empty());
        }
        let mut i: usize = 1;
        proof {
            assert(out@ + format_rest(pairs.skip(1)) =~= format_steps(pairs)) by {
                assert(format_steps(pairs) == step_text(pairs[0]) + format_rest(pairs.skip(1)));
            }
        }
        while i < n
            invariant
                1 <= i <= n,
                out@ + format_rest(pairs.skip(i as int)) == format_steps(pairs),
            decreases n - i,
        {
            proof {
                assert(pairs.skip(i as int)[0] == pairs[i as int]);
                assert(pairs[i as int] == (steps@[i as int].provider@, steps@[i as int].action@));
                reveal_strlit(" -> ");
                assert(" -> "@ =~= fmt_sep());
            }
            let ghost out0 = out@;
            out.append(" -> ");
            let t = steps[i].to_text();
            out.append(t.as_str());
            proof {
                assert(pairs.skip(i as int).skip(1) =~= pairs.skip(i as int + 1));
                assert(out@ + format_rest(pairs.skip(i as int + 1)) =~= out0 + (fmt_sep()
                    + step_text(pairs[i as int]) + format_rest(pairs.skip(i as int + 1))));
            }
            i = i + 1;
        }
        proof {
            assert(pairs.skip(n as int) =~= Seq::<(Seq<char>, Seq<char>)>::empty());
            assert(out@ + Seq::<char>::empty() =~= out@);
        }
        out
    }
}

/// Builds step lists in code rather than from the DSL.
pub struct PipelineBuilder {
    steps: Vec<PipelineStep>,
}

impl PipelineBuilder {
    /// The steps collected so far.
    pub closed spec fn steps_view(&self) -> Seq<PipelineStep> {
        self.steps@
    }

    /// An empty builder.
    pub fn new() -> (r: Self)
        ensures
            r.steps_view() == Seq::<PipelineStep>::empty(),
    {
        PipelineBuilder { steps: Vec::new() }
    }

    /// Append a plain step.
    pub fn step(self, provider: &str, action: &str) -> (r: Self)
        ensures
            r.steps_view().len() == self.steps_view().len() + 1,
            r.steps_view().drop_last() == self.steps_view(),
            r.steps_view().last().provider@ == provider@,
            r.steps_view().last().action@ == action@,
            r.steps_view().last().ctx_view() is None,
            !r.steps_view().last().has_transform_spec(),
    {
        let mut steps = self.steps;
        steps.push(PipelineStep::new(provider, action));
        let r = PipelineBuilder { steps };
        proof {
            assert(r.steps_view().drop_last() =~= self.steps_view());
        }
        r
    }

    /// Append a step that carries a static context.
    pub fn step_with_context(self, provider: &str, action: &str, context: &str) -> (r: Self)
        ensures
            r.steps_view().len() == self.steps_view().len() + 1,
            r.steps_view().drop_last() == self.steps_view(),
            r.steps_view().last().provider@ == provider@,
            r.steps_view().last().action@ == action@,
            r.steps_view().last().ctx_view() == Some(context@),
            !r.steps_view().last().has_transform_spec(),
    {
        let mut steps = self.steps;
        steps.push(PipelineStep::new(provider, action).with_context(context));
        let r = PipelineBuilder { steps };
        proof {
            assert(r.steps_view().drop_last() =~= self.steps_view());
        }
        r
    }

    /// The collected steps.
    pub fn build(self) -> (r: Vec<PipelineStep>)
        ensures
            r@ == self.steps_view(),
    {
        self.steps
    }
}

impl Default for PipelineBuilder {
    /// An empty builder.
    fn default() -> (r: Self)
        ensures
            r.steps_view() == Seq::<PipelineStep>::empty(),
    {
        PipelineBuilder::new()
    }
}

} // verus!
