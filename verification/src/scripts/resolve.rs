//! Resolution of the `${...}` markers of a script's `send` steps for one
//! host: the host's internals and environment, `${var:}`/`${secret:}`/
//! `${master:}` values looked up beforehand by the caller, and the run's
//! parameters as the answers to `${ask:label}`. The preview of a host
//! resolves the same way but shows every secret as `••••`.
use vstd::prelude::*;
use crate::scripts::types::Step;
use crate::subst::engine::{parse, parse_spec, render_markers, render_spec};
use crate::subst::redact::REDACTED;
use crate::subst::types::{
    clock_text, context_value, env_lookup, env_view, lookup_pairs, markers_view, DefaultResolver, InternalVar, Marker,
    MarkerV, Resolver, strings_view,
};

verus! {

/// Everything the markers of a host's commands resolve against.
pub struct ResolveCtx {
    /// Internals of the host and the environment snapshot.
    pub base: DefaultResolver,
    /// Values of `${var:name}`.
    pub vars: Vec<(String, String)>,
    /// Values of `${secret:name}`.
    pub secrets: Vec<(String, String)>,
    /// Values of `${master:name}`.
    pub masters: Vec<(String, String)>,
    /// The run's parameters: the answers to `${ask:label}`.
    pub params: Vec<(String, String)>,
}

/// The answer to a marker when a command is sent. `${date}` and `${time}`
/// come from the clock: only their shape is stated (`clock_ok`).
pub open spec fn send_answer(c: ResolveCtx, m: MarkerV) -> Option<Seq<char>> {
    match m {
        MarkerV::Literal(_) => None,
        MarkerV::Internal(v) => context_value(c.base.context(), v),
        MarkerV::Env(n) => Some(
            match env_lookup(c.base.environment(), n) {
                Some(v) => v,
                None => Seq::<char>::empty(),
            },
        ),
        MarkerV::Var(n) => env_lookup(env_view(c.vars@), n),
        MarkerV::Secret(n) => env_lookup(env_view(c.secrets@), n),
        MarkerV::Master(n) => env_lookup(env_view(c.masters@), n),
        MarkerV::Ask { label, .. } => env_lookup(env_view(c.params@), label),
        MarkerV::Cmd(_) => None,
    }
}

/// The answer to a marker in a preview: every secret reads `••••` and no
/// command runs.
pub open spec fn preview_answer(c: ResolveCtx, m: MarkerV) -> Option<Seq<char>> {
    match m {
        MarkerV::Secret(_) => Some(REDACTED@),
        MarkerV::Master(_) => Some(REDACTED@),
        _ => send_answer(c, m),
    }
}

pub open spec fn is_clock(m: MarkerV) -> bool {
    m matches MarkerV::Internal(v) && (v == InternalVar::Date || v == InternalVar::Time)
}

/// The answer to a clock marker has the shape of a date or of a time.
pub open spec fn clock_ok(m: MarkerV, a: Option<Seq<char>>) -> bool {
    m matches MarkerV::Internal(v) && a matches Some(t) && clock_text(v, t)
}

/// `answers` are what the context gives for `ms` (the clock's markers get
/// a date or a time as the clock has it).
pub open spec fn answers_ok(c: ResolveCtx, ms: Seq<MarkerV>, answers: Seq<Option<Seq<char>>>, preview: bool) -> bool {
    &&& answers.len() == ms.len()
    &&& forall|i: int|
        #![trigger answers[i]]
        0 <= i < ms.len() ==> if is_clock(ms[i]) {
            clock_ok(ms[i], answers[i])
        } else if preview {
            answers[i] == preview_answer(c, ms[i])
        } else {
            answers[i] == send_answer(c, ms[i])
        }
}

/// `out` is `text` resolved against `c`.
pub open spec fn resolves_to(c: ResolveCtx, text: Seq<char>, out: Seq<char>, preview: bool) -> bool {
    exists|answers: Seq<Option<Seq<char>>>|
        #![trigger render_spec(parse_spec(text), answers)]
        answers_ok(c, parse_spec(text), answers, preview) && out == render_spec(parse_spec(text), answers)
}

/// The secret values a send injects, in order: those of the `${secret:}` and
/// `${master:}` markers that resolve to a non-empty value.
pub open spec fn injected(c: ResolveCtx, ms: Seq<MarkerV>) -> Seq<Seq<char>>
    decreases ms.len(),
{
    if ms.len() == 0 {
        seq![]
    } else {
        let rest = injected(c, ms.drop_last());
        let m = ms.last();
        if (m is Secret || m is Master) && (send_answer(c, m) matches Some(v) && v.len() > 0) {
            rest.push(send_answer(c, m)->0)
        } else {
            rest
        }
    }
}

/// The texts of the `send` steps, in order.
pub open spec fn send_texts(steps: Seq<Step>) -> Seq<Seq<char>>
    decreases steps.len(),
{
    if steps.len() == 0 {
        seq![]
    } else {
        let rest = send_texts(steps.drop_last());
        match steps.last() {
            Step::Send { text } => rest.push(text@),
            _ => rest,
        }
    }
}

/// The text of an optional string.
pub open spec fn opt_text(o: Option<String>) -> Option<Seq<char>> {
    match o {
        Some(s) => Some(s@),
        None => None,
    }
}

fn owned_text(s: &str) -> (r: String)
    ensures
        r@ == s@,
{
    let mut m = String::new();
    crate::text::push_str(&mut m, s);
    m
}

impl ResolveCtx {
    /// The answer to one marker.
    fn answer(&self, m: &Marker, preview: bool) -> (r: Option<String>)
        ensures
            is_clock(m@) ==> clock_ok(m@, opt_text(r)),
            !is_clock(m@) && preview ==> opt_text(r) == preview_answer(*self, m@),
            !is_clock(m@) && !preview ==> opt_text(r) == send_answer(*self, m@),
    {
        match m {
            Marker::Literal(_) => None,
            Marker::Internal(v) => self.base.internal(*v),
            Marker::Env(n) => self.base.env(n.as_str()),
            Marker::Var(n) => lookup_pairs(&self.vars, n.as_str()),
            Marker::Secret(n) => {
                if preview {
                    Some(owned_text(REDACTED))
                } else {
                    lookup_pairs(&self.secrets, n.as_str())
                }
            },
            Marker::Master(n) => {
                if preview {
                    Some(owned_text(REDACTED))
                } else {
                    lookup_pairs(&self.masters, n.as_str())
                }
            },
            Marker::Ask { label, .. } => lookup_pairs(&self.params, label.as_str()),
            Marker::Cmd(_) => None,
        }
    }

    fn resolve(&self, text: &str, preview: bool) -> (r: (String, Vec<String>))
        ensures
            resolves_to(*self, text@, r.0@, preview),
            !preview ==> strings_view(r.1@) == injected(*self, parse_spec(text@)),
    {
        let markers = parse(text);
        let ghost ms = parse_spec(text@);
        let mut answers: Vec<Option<String>> = Vec::new();
        let mut recorded: Vec<String> = Vec::new();
        let mut i: usize = 0;
        while i < markers.len()
            invariant
                i <= markers@.len(),
                markers_view(markers@) == ms,
                answers@.len() == i,
                forall|k: int|
                    #![trigger answers@[k]]
                    0 <= k < i ==> if is_clock(ms[k]) {
                        clock_ok(ms[k], opt_text(answers@[k]))
                    } else if preview {
                        opt_text(answers@[k]) == preview_answer(*self, ms[k])
                    } else {
                        opt_text(answers@[k]) == send_answer(*self, ms[k])
                    },
                !preview ==> strings_view(recorded@) == injected(*self, ms.take(i as int)),
            decreases markers.len() - i,
        {
            let a = self.answer(&markers[i], preview);
            proof {
                assert(ms[i as int] == markers@[i as int]@);
                assert(ms.take(i + 1).drop_last() =~= ms.take(i as int));
                assert(ms.take(i + 1).last() == ms[i as int]);
            }
            if !preview {
                let secretish = match &markers[i] {
                    Marker::Secret(_) => true,
                    Marker::Master(_) => true,
                    _ => false,
                };
                if secretish {
                    if let Some(v) = &a {
                        if crate::text::chars_of(v.as_str()).len() > 0 {
                            recorded.push(v.clone());
                        }
                    }
                }
                assert(strings_view(recorded@) =~= injected(*self, ms.take(i + 1)));
            }
            answers.push(a);
            i += 1;
        }
        let out = render_markers(&markers, &answers);
        proof {
            let av = crate::subst::engine::answers_view(answers@);
            assert(answers_ok(*self, ms, av, preview)) by {
                assert forall|k: int| 0 <= k < ms.len() implies #[trigger] av[k] == av[k] && (if is_clock(ms[k]) {
                    clock_ok(ms[k], av[k])
                } else if preview {
                    av[k] == preview_answer(*self, ms[k])
                } else {
                    av[k] == send_answer(*self, ms[k])
                }) by {
                    assert(answers@[k] == answers@[k]);
                }
            }
            assert(ms.take(i as int) =~= ms);
        }
        (out, recorded)
    }

    /// The text of a `send` resolved for the host, and the secret values it
    /// injects (to redact them from the host's output).
    pub fn resolve_send(&self, text: &str) -> (r: (String, Vec<String>))
        ensures
            resolves_to(*self, text@, r.0@, false),
            strings_view(r.1@) == injected(*self, parse_spec(text@)),
    {
        self.resolve(text, false)
    }

    /// The commands a host would be sent (its `send` steps resolved), with
    /// every secret shown as `••••`. Nothing is sent.
    pub fn preview_commands(&self, steps: &[Step]) -> (r: Vec<String>)
        ensures
            r@.len() == send_texts(steps@).len(),
            forall|k: int| 0 <= k < r@.len() ==> resolves_to(*self, send_texts(steps@)[k], #[trigger] r@[k]@, true),
    {
        let mut out: Vec<String> = Vec::new();
        let mut i: usize = 0;
        while i < steps.len()
            invariant
                i <= steps@.len(),
                out@.len() == send_texts(steps@.take(i as int)).len(),
                forall|k: int|
                    0 <= k < out@.len() ==> resolves_to(*self, send_texts(steps@.take(i as int))[k], #[trigger] out@[k]@, true),
            decreases steps.len() - i,
        {
            proof {
                assert(steps@.take(i + 1).drop_last() =~= steps@.take(i as int));
                assert(steps@.take(i + 1).last() == steps@[i as int]);
            }
            match &steps[i] {
                Step::Send { text } => {
                    let (line, _) = self.resolve(text.as_str(), true);
                    out.push(line);
                },
                _ => {},
            }
            i += 1;
        }
        assert(steps@.take(i as int) =~= steps@);
        out
    }
}

} // verus!
