use vstd::prelude::*;

use crate::config::{DetectorAction, OutputSanitizerConfig};
use crate::detectors::prompt::{push_text, strings_view};
use crate::errors::{DetectorError, STATUS_FORBIDDEN};
use crate::matching::{
    regex_check, regex_compile_outcome, regex_is_match, regex_matches, regex_ok,
    regex_replace_all, regex_replaced,
};
use crate::pipeline::context::{step, DetectorActionTaken, RequestContext, ResponseContext};
use crate::text::to_owned_string;

verus! {

/// The executable-content patterns a response is checked against: script
/// elements, `javascript:` URLs, HTML data URLs, inline event handlers and
/// iframes.
pub open spec fn sanitizer_patterns() -> Seq<Seq<char>> {
    seq![
        "(?i)<\\s*script\\b[^>]*>.*?<\\s*/\\s*script\\s*>"@,
        "(?i)javascript\\s*:"@,
        "(?i)data\\s*:\\s*text/html"@,
        "(?i)\\son[a-z]+\\s*=\\s*[\"'][^\"']*[\"']"@,
        "(?i)<\\s*iframe\\b[^>]*>"@,
    ]
}

/// Some pattern matches the text.
pub open spec fn has_violation_spec(patterns: Seq<Seq<char>>, text: Seq<char>) -> bool {
    exists|i: int| 0 <= i < patterns.len() && regex_matches(#[trigger] patterns[i], text)
}

/// The text after the first `n` patterns have each replaced their matches
/// with `[REDACTED]`.
pub open spec fn sanitize_prefix(patterns: Seq<Seq<char>>, n: int, text: Seq<char>) -> Seq<char>
    decreases n,
{
    if n <= 0 {
        text
    } else {
        regex_replaced(patterns[n - 1], sanitize_prefix(patterns, n - 1, text), "[REDACTED]"@)
    }
}

pub open spec fn sanitize_spec(patterns: Seq<Seq<char>>, text: Seq<char>) -> Seq<char> {
    sanitize_prefix(patterns, patterns.len() as int, text)
}

/// The reason recorded for a violation.
pub open spec fn sanitizer_reason() -> Seq<char> {
    "response contained executable HTML or JavaScript pattern"@
}

/// Blocks, redacts or logs executable HTML and JavaScript in responses.
pub struct OutputSanitizer {
    action: DetectorAction,
    patterns: Vec<String>,
}

/// What the output sanitizer does to a response, from `c0` to `c1`:
/// executable content is blocked with 403, redacted or logged, by the
/// action; any other response passes.
pub open spec fn sanitizer_response_outcome(
    d: OutputSanitizer,
    c0: ResponseContext,
    c1: ResponseContext,
    r: Result<(), DetectorError>,
) -> bool {
    &&& c1.same_response(&c0)
    &&& ({
        let p = d.patterns_spec();
        let text = c0.body_text@;
        if !has_violation_spec(p, text) {
            &&& r is Ok
            &&& c1.body_text == c0.body_text
            &&& c1.results() == c0.results().push(
                ("output_sanitizer"@, DetectorActionTaken::Pass, None),
            )
        } else {
            match d.action_spec() {
                DetectorAction::Block => {
                    &&& r matches Err(DetectorError::Blocked { detector, reason, status })
                        && detector@ == "output_sanitizer"@ && reason@
                        == sanitizer_reason() && status == STATUS_FORBIDDEN
                    &&& c1.body_text == c0.body_text
                    &&& c1.results() == c0.results().push(
                        (
                            "output_sanitizer"@,
                            DetectorActionTaken::Block,
                            Some(sanitizer_reason()),
                        ),
                    )
                },
                DetectorAction::Redact => {
                    &&& r is Ok
                    &&& c1.body_text@ == sanitize_spec(p, text)
                    &&& c1.results() == c0.results().push(
                        (
                            "output_sanitizer"@,
                            DetectorActionTaken::Redact,
                            Some(sanitizer_reason()),
                        ),
                    )
                },
                DetectorAction::LogOnly => {
                    &&& r is Ok
                    &&& c1.body_text == c0.body_text
                    &&& c1.results() == c0.results().push(
                        (
                            "output_sanitizer"@,
                            DetectorActionTaken::LogOnly,
                            Some(sanitizer_reason()),
                        ),
                    )
                },
            }
        }
    })
}

/// Every fixed pattern of the sanitizer compiles.
pub open spec fn sanitizer_patterns_compile() -> bool {
    forall|i: int| 0 <= i < sanitizer_patterns().len() ==> regex_ok(#[trigger] sanitizer_patterns()[i])
}

/// A sanitizer with its fixed patterns finds a violation exactly when the
/// text matches one of the five documented patterns: a script element, a
/// `javascript:` URL, an HTML data URL, an inline event handler or an
/// iframe tag.
pub proof fn violation_is_a_documented_pattern(s: OutputSanitizer, text: Seq<char>)
    requires
        s.patterns_spec() == sanitizer_patterns(),
    ensures
        has_violation_spec(s.patterns_spec(), text) <==> (regex_matches(
            "(?i)<\\s*script\\b[^>]*>.*?<\\s*/\\s*script\\s*>"@,
            text,
        ) || regex_matches("(?i)javascript\\s*:"@, text) || regex_matches(
            "(?i)data\\s*:\\s*text/html"@,
            text,
        ) || regex_matches("(?i)\\son[a-z]+\\s*=\\s*[\"'][^\"']*[\"']"@, text) || regex_matches(
            "(?i)<\\s*iframe\\b[^>]*>"@,
            text,
        )),
{
    let p = s.patterns_spec();
    if regex_matches("(?i)<\\s*script\\b[^>]*>.*?<\\s*/\\s*script\\s*>"@, text) {
        assert(regex_matches(p[0], text));
    }
    if regex_matches("(?i)javascript\\s*:"@, text) {
        assert(regex_matches(p[1], text));
    }
    if regex_matches("(?i)data\\s*:\\s*text/html"@, text) {
        assert(regex_matches(p[2], text));
    }
    if regex_matches("(?i)\\son[a-z]+\\s*=\\s*[\"'][^\"']*[\"']"@, text) {
        assert(regex_matches(p[3], text));
    }
    if regex_matches("(?i)<\\s*iframe\\b[^>]*>"@, text) {
        assert(regex_matches(p[4], text));
    }
}

/// Redacting, a sanitizer with its fixed patterns rewrites a text that
/// holds executable content by replacing, in turn, the matches of the
/// script, `javascript:`, HTML data URL, event handler and iframe patterns
/// with `[REDACTED]`, and records a redaction.
pub proof fn redaction_applies_documented_patterns_in_order(
    s: OutputSanitizer,
    c0: ResponseContext,
    c1: ResponseContext,
    r: Result<(), DetectorError>,
)
    requires
        s.patterns_spec() == sanitizer_patterns(),
        s.action_spec() == DetectorAction::Redact,
        sanitizer_response_outcome(s, c0, c1, r),
        has_violation_spec(s.patterns_spec(), c0.body_text@),
    ensures
        r is Ok,
        c1.body_text@ == regex_replaced(
            "(?i)<\\s*iframe\\b[^>]*>"@,
            regex_replaced(
                "(?i)\\son[a-z]+\\s*=\\s*[\"'][^\"']*[\"']"@,
                regex_replaced(
                    "(?i)data\\s*:\\s*text/html"@,
                    regex_replaced(
                        "(?i)javascript\\s*:"@,
                        regex_replaced(
                            "(?i)<\\s*script\\b[^>]*>.*?<\\s*/\\s*script\\s*>"@,
                            c0.body_text@,
                            "[REDACTED]"@,
                        ),
                        "[REDACTED]"@,
                    ),
                    "[REDACTED]"@,
                ),
                "[REDACTED]"@,
            ),
            "[REDACTED]"@,
        ),
        c1.results().last().1 == DetectorActionTaken::Redact,
{
    let p = s.patterns_spec();
    let t = c0.body_text@;
    reveal_with_fuel(sanitize_prefix, 6);
}

impl OutputSanitizer {
    pub closed spec fn action_spec(&self) -> DetectorAction {
        self.action
    }

    pub closed spec fn patterns_spec(&self) -> Seq<Seq<char>> {
        strings_view(self.patterns@)
    }

    /// Every pattern compiles.
    pub closed spec fn wf(&self) -> bool {
        forall|i: int| 0 <= i < self.patterns@.len() ==> regex_ok(#[trigger] self.patterns@[i]@)
    }

    /// Compiles the fixed patterns, failing with the message of the first
    /// that does not compile.
    pub fn new(config: &OutputSanitizerConfig) -> (r: Result<OutputSanitizer, String>)
        ensures
            r is Ok <==> sanitizer_patterns_compile(),
            match r {
                Ok(s) => s.wf() && s.patterns_spec() == sanitizer_patterns() && s.action_spec()
                    == config.action,
                Err(m) => exists|i: int|
                    0 <= i < sanitizer_patterns().len() && regex_compile_outcome(
                        #[trigger] sanitizer_patterns()[i],
                    ) == Err::<(), Seq<char>>(m@),
            },
    {
        let mut fixed: Vec<String> = Vec::new();
        push_text(&mut fixed, &to_owned_string("(?i)<\\s*script\\b[^>]*>.*?<\\s*/\\s*script\\s*>"));
        push_text(&mut fixed, &to_owned_string("(?i)javascript\\s*:"));
        push_text(&mut fixed, &to_owned_string("(?i)data\\s*:\\s*text/html"));
        push_text(&mut fixed, &to_owned_string("(?i)\\son[a-z]+\\s*=\\s*[\"'][^\"']*[\"']"));
        push_text(&mut fixed, &to_owned_string("(?i)<\\s*iframe\\b[^>]*>"));
        assert(strings_view(fixed@) =~= sanitizer_patterns());
        let mut i: usize = 0;
        while i < fixed.len()
            invariant
                i <= fixed.len(),
                strings_view(fixed@) == sanitizer_patterns(),
                forall|k: int| 0 <= k < i ==> regex_ok(#[trigger] fixed@[k]@),
            decreases fixed.len() - i,
        {
            match regex_check(fixed[i].as_str()) {
                Ok(()) => {},
                Err(m) => {
                    assert(sanitizer_patterns()[i as int] == fixed@[i as int]@);
                    return Err(m);
                },
            }
            i += 1;
        }
        Ok(OutputSanitizer { action: config.action, patterns: fixed })
    }

    pub fn name(&self) -> (r: &'static str)
        ensures
            r@ == "output_sanitizer"@,
    {
        "output_sanitizer"
    }

    /// Whether any pattern matches the text.
    pub fn has_violation(&self, text: &str) -> (r: bool)
        requires
            self.wf(),
        ensures
            r == has_violation_spec(self.patterns_spec(), text@),
    {
        let mut i: usize = 0;
        while i < self.patterns.len()
            invariant
                self.wf(),
                i <= self.patterns.len(),
                forall|k: int| 0 <= k < i ==> !regex_matches(#[trigger] self.patterns@[k]@, text@),
            decreases self.patterns.len() - i,
        {
            if regex_is_match(self.patterns[i].as_str(), text) {
                assert(self.patterns_spec()[i as int] == self.patterns@[i as int]@);
                return true;
            }
            i += 1;
        }
        assert forall|k: int| 0 <= k < self.patterns_spec().len() implies !regex_matches(
            #[trigger] self.patterns_spec()[k],
            text@,
        ) by {
            assert(self.patterns_spec()[k] == self.patterns@[k]@);
        }
        false
    }

    /// Each pattern in turn replaces its matches with `[REDACTED]`.
    pub fn sanitize(&self, text: &str) -> (r: String)
        requires
            self.wf(),
        ensures
            r@ == sanitize_spec(self.patterns_spec(), text@),
            !has_violation_spec(self.patterns_spec(), text@) ==> r@ == text@,
    {
        let mut current = to_owned_string(text);
        let mut i: usize = 0;
        while i < self.patterns.len()
            invariant
                self.wf(),
                i <= self.patterns.len(),
                current@ == sanitize_prefix(self.patterns_spec(), i as int, text@),
                !has_violation_spec(self.patterns_spec(), text@) ==> current@ == text@,
            decreases self.patterns.len() - i,
        {
            assert(self.patterns_spec()[i as int] == self.patterns@[i as int]@);
            current = regex_replace_all(self.patterns[i].as_str(), current.as_str(), "[REDACTED]");
            i += 1;
        }
        current
    }

    /// Requests are not inspected: the request passes.
    pub fn inspect_request(&self, ctx: &mut RequestContext) -> (r: Result<(), DetectorError>)
        ensures
            r is Ok,
            final(ctx).same_request(old(ctx)),
            final(ctx).modified_body == old(ctx).modified_body,
            final(ctx).prompt_tokens == old(ctx).prompt_tokens,
            final(ctx).results() == old(ctx).results().push(
                ("output_sanitizer"@, DetectorActionTaken::Pass, None),
            ),
    {
        ctx.record_pass(self.name());
        Ok(())
    }

    /// A response with executable content is blocked with 403, redacted or
    /// logged, by the configured action; any other response passes.
    pub fn inspect_response(&self, ctx: &mut ResponseContext) -> (r: Result<(), DetectorError>)
        requires
            self.wf(),
        ensures
            step(old(ctx).results(), final(ctx).results(), r, "output_sanitizer"@),
            sanitizer_response_outcome(*self, *old(ctx), *final(ctx), r),
    {
        if !self.has_violation(ctx.body_text.as_str()) {
            ctx.record_pass(self.name());
            return Ok(());
        }
        let reason = to_owned_string("response contained executable HTML or JavaScript pattern");
        match self.action {
            DetectorAction::Block => {
                ctx.record(self.name(), DetectorActionTaken::Block, reason.clone());
                Err(DetectorError::blocked(self.name(), reason))
            },
            DetectorAction::Redact => {
                ctx.body_text = self.sanitize(ctx.body_text.as_str());
                ctx.record(self.name(), DetectorActionTaken::Redact, reason);
                Ok(())
            },
            DetectorAction::LogOnly => {
                ctx.record(self.name(), DetectorActionTaken::LogOnly, reason);
                Ok(())
            },
        }
    }
}

} // verus!
