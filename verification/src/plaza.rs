//! Plaza: the village-square dispatcher's configuration, its prompt builder,
//! and the text codecs it uses (base64 content, shell-safe keystrokes).
use vstd::prelude::*;
use vstd::string::*;
use crate::text::{chars_of, owned, replace_seq, replace_str, str_eq};

verus! {

// ---------------------------------------------------------------------------
// Configuration.
// ---------------------------------------------------------------------------

/// Where the review tape lives on this machine.
pub struct LocalTarget {
    pub repo_path: String,
    pub tape_file: String,
    pub blessings_dir: String,
    pub frame_counter_file: String,
}

/// Where the review tape lives on GitHub.
pub struct GithubTarget {
    pub url: String,
    pub tape_url: String,
    pub blessings_url: String,
}

/// The repository the critics look at.
pub struct TargetConfig {
    pub local: LocalTarget,
    pub github: GithubTarget,
    pub branch: String,
}

/// One critic: who it is, how a prompt reaches it, and its entry file.
pub struct ReviewerJsonConfig {
    pub name: String,
    pub display_name: String,
    /// "cli", "browser" or "self_push".
    pub reviewer_type: String,
    /// "tmux" or "cdp".
    pub dispatch: String,
    pub enabled: bool,
    pub tmux_session: String,
    pub tab_match: String,
    pub scrape: bool,
    pub entry_file: String,
}

/// The prompt templates, one per critic type.
pub struct PromptTemplate {
    pub cli: String,
    pub browser: String,
    pub self_push: String,
}

/// The whole dispatcher configuration.
pub struct PlazaConfig {
    pub port: u16,
    pub cdp_url: String,
    pub cody_tmux_session: String,
    pub target: TargetConfig,
    pub frame_counter_start: u64,
    pub reviewers: Vec<ReviewerJsonConfig>,
    pub prompt_template: PromptTemplate,
}

/// The port the dispatcher listens on when the configuration names none.
pub fn default_port() -> (r: u16)
    ensures
        r == 3005,
{
    3005
}

/// The Chrome DevTools endpoint used when the configuration names none.
pub fn default_cdp_url() -> (r: String)
    ensures
        r@ == "http://localhost:9222"@,
{
    owned("http://localhost:9222")
}

/// The tmux session that Cody works in when the configuration names none.
pub fn default_cody_session() -> (r: String)
    ensures
        r@ == "cody"@,
{
    owned("cody")
}

/// Critics are enabled unless the configuration says otherwise.
pub fn default_true() -> (r: bool)
    ensures
        r,
{
    true
}

// ---------------------------------------------------------------------------
// Prompt building.
// ---------------------------------------------------------------------------

/// The template used for a critic of the given type: browser for any type
/// other than "cli" and "self_push".
pub open spec fn template_for(t: PromptTemplate, reviewer_type: Seq<char>) -> Seq<char> {
    if reviewer_type == "cli"@ {
        t.cli@
    } else if reviewer_type == "browser"@ {
        t.browser@
    } else if reviewer_type == "self_push"@ {
        t.self_push@
    } else {
        t.browser@
    }
}

/// Each of the three critic types gets the configured template of the same
/// name; any other type gets the browser template.
pub proof fn lemma_template_by_type(t: PromptTemplate, reviewer_type: Seq<char>)
    ensures
        template_for(t, "cli"@) == t.cli@,
        template_for(t, "browser"@) == t.browser@,
        template_for(t, "self_push"@) == t.self_push@,
        reviewer_type != "cli"@ && reviewer_type != "self_push"@ ==> template_for(t, reviewer_type)
            == t.browser@,
{
    reveal_strlit("cli");
    reveal_strlit("browser");
    reveal_strlit("self_push");
    assert("self_push"@ != "cli"@) by {
        assert("self_push"@.len() != "cli"@.len());
    }
    assert("self_push"@ != "browser"@) by {
        assert("self_push"@[0] != "browser"@[0]);
    }
    assert("browser"@ != "cli"@) by {
        assert("browser"@[0] != "cli"@[0]);
    }
}

/// The template with every placeholder filled in, in the fixed order
/// {local_repo}, {local_tape}, {local_blessings}, {github_tape_url},
/// {github_url}, {branch}, {entry_file}, {name}.
pub open spec fn filled_template(cfg: PlazaConfig, reviewer: ReviewerJsonConfig) -> Seq<char> {
    let t = template_for(cfg.prompt_template, reviewer.reviewer_type@);
    let p1 = replace_seq(t, "{local_repo}"@, cfg.target.local.repo_path@);
    let p2 = replace_seq(p1, "{local_tape}"@, cfg.target.local.tape_file@);
    let p3 = replace_seq(p2, "{local_blessings}"@, cfg.target.local.blessings_dir@);
    let p4 = replace_seq(p3, "{github_tape_url}"@, cfg.target.github.tape_url@);
    let p5 = replace_seq(p4, "{github_url}"@, cfg.target.github.url@);
    let p6 = replace_seq(p5, "{branch}"@, cfg.target.branch@);
    let p7 = replace_seq(p6, "{entry_file}"@, reviewer.entry_file@);
    replace_seq(p7, "{name}"@, reviewer.name@)
}

/// "You are {display_name}. {content} {filled template}".
pub open spec fn prompt_seq(
    cfg: PlazaConfig,
    reviewer: ReviewerJsonConfig,
    content: Seq<char>,
) -> Seq<char> {
    "You are "@ + reviewer.display_name@ + ". "@ + content + " "@ + filled_template(cfg, reviewer)
}

impl PlazaConfig {
    /// The template for a critic type.
    fn template_text(&self, reviewer_type: &str) -> (r: &String)
        ensures
            r@ == template_for(self.prompt_template, reviewer_type@),
            reviewer_type@ == "cli"@ ==> r@ == self.prompt_template.cli@,
            reviewer_type@ == "browser"@ ==> r@ == self.prompt_template.browser@,
            reviewer_type@ == "self_push"@ ==> r@ == self.prompt_template.self_push@,
    {
        proof {
            lemma_template_by_type(self.prompt_template, reviewer_type@);
        }
        if str_eq(reviewer_type, "cli") {
            &self.prompt_template.cli
        } else if str_eq(reviewer_type, "browser") {
            &self.prompt_template.browser
        } else if str_eq(reviewer_type, "self_push") {
            &self.prompt_template.self_push
        } else {
            &self.prompt_template.browser
        }
    }

    /// Build the dispatch prompt for a critic.
    pub fn build_prompt(&self, reviewer: &ReviewerJsonConfig, content: &str) -> (r: String)
        ensures
            r@ == prompt_seq(*self, *reviewer, content@),
    {
        proof {
            reveal_strlit("{local_repo}");
            reveal_strlit("{local_tape}");
            reveal_strlit("{local_blessings}");
            reveal_strlit("{github_tape_url}");
            reveal_strlit("{github_url}");
            reveal_strlit("{branch}");
            reveal_strlit("{entry_file}");
            reveal_strlit("{name}");
        }
        let template = self.template_text(reviewer.reviewer_type.as_str());
        let p = replace_str(template.as_str(), "{local_repo}", self.target.local.repo_path.as_str());
        let p = replace_str(p.as_str(), "{local_tape}", self.target.local.tape_file.as_str());
        let p = replace_str(
            p.as_str(),
            "{local_blessings}",
            self.target.local.blessings_dir.as_str(),
        );
        let p = replace_str(p.as_str(), "{github_tape_url}", self.target.github.tape_url.as_str());
        let p = replace_str(p.as_str(), "{github_url}", self.target.github.url.as_str());
        let p = replace_str(p.as_str(), "{branch}", self.target.branch.as_str());
        let p = replace_str(p.as_str(), "{entry_file}", reviewer.entry_file.as_str());
        let p = replace_str(p.as_str(), "{name}", reviewer.name.as_str());
        let mut r = owned("You are ");
        r.append(reviewer.display_name.as_str());
        r.append(". ");
        r.append(content);
        r.append(" ");
        r.append(p.as_str());
        r
    }
}

// ---------------------------------------------------------------------------
// Shell-safe keystrokes.
// ---------------------------------------------------------------------------

/// What one character becomes in a tmux `send-keys` argument: a single quote
/// is escaped as `'\''`, the characters `` ` `` `$` `;` `|` `&` are dropped,
/// line breaks become spaces, everything else stays.
pub open spec fn shell_safe_char(c: char) -> Seq<char> {
    if c == '\'' {
        seq!['\'', '\\', '\'', '\'']
    } else if c == '`' || c == '$' || c == ';' || c == '|' || c == '&' {
        Seq::empty()
    } else if c == '\n' || c == '\r' {
        seq![' ']
    } else {
        seq![c]
    }
}

/// The characters of `s` each made shell-safe, in order.
pub open spec fn shell_safe_seq(s: Seq<char>) -> Seq<char>
    decreases s.len(),
{
    if s.len() == 0 {
        Seq::empty()
    } else {
        shell_safe_seq(s.drop_last()) + shell_safe_char(s.last())
    }
}

/// The characters a shell-safe string never holds.
pub open spec fn shell_unsafe_char(c: char) -> bool {
    c == '`' || c == '$' || c == ';' || c == '|' || c == '&' || c == '\n' || c == '\r'
}

proof fn lemma_shell_safe_clean(s: Seq<char>)
    ensures
        forall|i: int| 0 <= i < shell_safe_seq(s).len() ==> !shell_unsafe_char(#[trigger] shell_safe_seq(s)[i]),
    decreases s.len(),
{
    if s.len() > 0 {
        lemma_shell_safe_clean(s.drop_last());
        let a = shell_safe_seq(s.drop_last());
        let b = shell_safe_char(s.last());
        assert forall|i: int| 0 <= i < (a + b).len() implies !shell_unsafe_char(#[trigger] (a + b)[i]) by {
            if i >= a.len() {
                assert((a + b)[i] == b[i - a.len()]);
            }
        }
    }
}

/// Sanitize a string for safe use in tmux send-keys.
pub fn shell_safe(s: &str) -> (r: String)
    ensures
        r@ == shell_safe_seq(s@),
        forall|i: int| 0 <= i < r@.len() ==> !shell_unsafe_char(#[trigger] r@[i]),
{
    let v = chars_of(s);
    let mut r = String::new();
    let mut i: usize = 0;
    while i < v.len()
        invariant
            i <= v.len(),
            r@ == shell_safe_seq(v@.take(i as int)),
        decreases v.len() - i,
    {
        let c = v[i];
        let ghost before = r@;
        if c == '\'' {
            r.push('\'');
            r.push('\\');
            r.push('\'');
            r.push('\'');
        } else if c == '`' || c == '$' || c == ';' || c == '|' || c == '&' {
        } else if c == '\n' || c == '\r' {
            r.push(' ');
        } else {
            r.push(c);
        }
        proof {
            let t = v@.take(i + 1);
            assert(t.drop_last() =~= v@.take(i as int));
            assert(t.last() == c);
            assert(r@ =~= before + shell_safe_char(c));
        }
        i += 1;
    }
    assert(v@.take(v.len() as int) =~= v@);
    proof {
        lemma_shell_safe_clean(s@);
    }
    r
}

// ---------------------------------------------------------------------------
// Base64 content.
// ---------------------------------------------------------------------------

/// The bytes that `u8::is_ascii_whitespace` accepts: space, tab, line feed,
/// form feed and carriage return.
pub open spec fn is_b64_space(b: u8) -> bool {
    b == 0x20 || b == 0x09 || b == 0x0a || b == 0x0c || b == 0x0d
}

/// The six-bit value of a base64 symbol; `=` counts as zero.
pub open spec fn b64_value(b: u8) -> Option<u8> {
    if 0x41 <= b <= 0x5a {
        Some((b - 0x41) as u8)
    } else if 0x61 <= b <= 0x7a {
        Some((b - 0x61 + 26) as u8)
    } else if 0x30 <= b <= 0x39 {
        Some((b - 0x30 + 52) as u8)
    } else if b == 0x2b {
        Some(62u8)
    } else if b == 0x2f {
        Some(63u8)
    } else if b == 0x3d {
        Some(0u8)
    } else {
        None
    }
}

/// The bytes a group of two to four symbols stands for: the first two symbols
/// give one byte; a third symbol other than `=` gives a second; a fourth
/// symbol other than `=` (after such a third) gives a third byte.
pub open spec fn b64_group(g: Seq<u8>) -> Option<Seq<u8>> {
    match (b64_value(g[0]), b64_value(g[1])) {
        (Some(a), Some(b)) => {
            let first = (a * 4 + b / 16) as u8;
            if g.len() > 2 && g[2] != 0x3d {
                match b64_value(g[2]) {
                    Some(c) => {
                        let second = ((b % 16) * 16 + c / 4) as u8;
                        if g.len() > 3 && g[3] != 0x3d {
                            match b64_value(g[3]) {
                                Some(d) => Some(seq![first, second, ((c % 4) * 64 + d) as u8]),
                                None => None,
                            }
                        } else {
                            Some(seq![first, second])
                        }
                    },
                    None => None,
                }
            } else {
                Some(seq![first])
            }
        },
        _ => None,
    }
}

/// Groups of four symbols decoded in turn; a final group of two or three
/// symbols is decoded too, a final lone symbol is ignored.
pub open spec fn b64_groups(s: Seq<u8>) -> Option<Seq<u8>>
    decreases s.len(),
{
    if s.len() < 2 {
        Some(Seq::empty())
    } else if s.len() < 4 {
        b64_group(s)
    } else {
        match b64_group(s.take(4)) {
            Some(out) => match b64_groups(s.skip(4)) {
                Some(rest) => Some(out + rest),
                None => None,
            },
            None => None,
        }
    }
}

/// Base64 decoding of `input` after dropping ASCII white space; `None` when a
/// decoded group holds a byte that is not a base64 symbol.
pub open spec fn base64_decode_seq(input: Seq<u8>) -> Option<Seq<u8>> {
    b64_groups(input.filter(b64_keep()))
}

/// The bytes that take part in decoding: all but white space.
pub open spec fn b64_keep() -> spec_fn(u8) -> bool {
    |b: u8| !is_b64_space(b)
}

proof fn lemma_spaces_filter_away(w: Seq<u8>)
    requires
        forall|i: int| 0 <= i < w.len() ==> is_b64_space(#[trigger] w[i]),
    ensures
        w.filter(b64_keep()) == Seq::<u8>::empty(),
    decreases w.len(),
{
    reveal_with_fuel(Seq::<_>::filter, 1);
    if w.len() > 0 {
        lemma_spaces_filter_away(w.drop_last());
        assert(!b64_keep()(w.last()));
    }
}

/// White space anywhere in base64 content changes nothing: putting ASCII
/// white space between any two parts of the input, or taking it out, gives
/// the same decoding.
pub proof fn lemma_decode_ignores_white_space(a: Seq<u8>, w: Seq<u8>, b: Seq<u8>)
    requires
        forall|i: int| 0 <= i < w.len() ==> is_b64_space(#[trigger] w[i]),
    ensures
        base64_decode_seq(a + w + b) == base64_decode_seq(a + b),
{
    lemma_spaces_filter_away(w);
    Seq::filter_distributes_over_add(a + w, b, b64_keep());
    Seq::filter_distributes_over_add(a, w, b64_keep());
    Seq::filter_distributes_over_add(a, b, b64_keep());
    assert(a.filter(b64_keep()) + Seq::<u8>::empty() =~= a.filter(b64_keep()));
}

fn b64_lookup(c: u8) -> (r: Option<u8>)
    ensures
        r == b64_value(c),
        r matches Some(v) ==> v < 64,
{
    if 0x41 <= c && c <= 0x5a {
        Some(c - 0x41)
    } else if 0x61 <= c && c <= 0x7a {
        Some(c - 0x61 + 26)
    } else if 0x30 <= c && c <= 0x39 {
        Some(c - 0x30 + 52)
    } else if c == 0x2b {
        Some(62)
    } else if c == 0x2f {
        Some(63)
    } else if c == 0x3d {
        Some(0)
    } else {
        None
    }
}

proof fn lemma_b64_bits(a: u8, b: u8, c: u8, d: u8)
    requires
        a < 64,
        b < 64,
        c < 64,
        d < 64,
    ensures
        ((a << 2u8) | (b >> 4u8)) == (a * 4 + b / 16) as u8,
        ((b << 4u8) | (c >> 2u8)) == ((b % 16) * 16 + c / 4) as u8,
        ((c << 6u8) | d) == ((c % 4) * 64 + d) as u8,
{
    assert(((a << 2u8) | (b >> 4u8)) == (a * 4 + b / 16) as u8) by (bit_vector)
        requires
            a < 64,
            b < 64,
    ;
    assert(((b << 4u8) | (c >> 2u8)) == ((b % 16) * 16 + c / 4) as u8) by (bit_vector)
        requires
            b < 64,
            c < 64,
    ;
    assert(((c << 6u8) | d) == ((c % 4) * 64 + d) as u8) by (bit_vector)
        requires
            c < 64,
            d < 64,
    ;
}

/// Decodes the group `s[i..min(i + 4, len)]`, appending its bytes to `out`.
fn decode_group(s: &Vec<u8>, i: usize, out: &mut Vec<u8>) -> (ok: bool)
    requires
        i + 2 <= s.len(),
    ensures
        ok == (b64_group(s@.subrange(i as int, if s.len() - i >= 4 { i + 4 } else { s.len() as int })) is Some),
        ok ==> final(out)@ == old(out)@ + b64_group(
            s@.subrange(i as int, if s.len() - i >= 4 { i + 4 } else { s.len() as int }),
        )->0,
{
    let end: usize = if s.len() - i >= 4 { i + 4 } else { s.len() };
    let ghost g = s@.subrange(i as int, end as int);
    assert(g[0] == s@[i as int] && g[1] == s@[i + 1]);
    let a = match b64_lookup(s[i]) {
        Some(v) => v,
        None => { return false; },
    };
    let b = match b64_lookup(s[i + 1]) {
        Some(v) => v,
        None => { return false; },
    };
    proof {
        lemma_b64_bits(a, b, 0, 0);
    }
    out.push((a << 2) | (b >> 4));
    if end - i > 2 && s[i + 2] != 0x3d {
        assert(g[2] == s@[i + 2]);
        let c = match b64_lookup(s[i + 2]) {
            Some(v) => v,
            None => { return false; },
        };
        proof {
            lemma_b64_bits(a, b, c, 0);
        }
        out.push((b << 4) | (c >> 2));
        if end - i > 3 && s[i + 3] != 0x3d {
            assert(g[3] == s@[i + 3]);
            let d = match b64_lookup(s[i + 3]) {
                Some(v) => v,
                None => { return false; },
            };
            proof {
                lemma_b64_bits(a, b, c, d);
            }
            out.push((c << 6) | d);
            assert(final(out)@ =~= old(out)@ + b64_group(g)->0);
        } else {
            proof {
                if end - i > 3 {
                    assert(g[3] == s@[i + 3]);
                }
            }
            assert(final(out)@ =~= old(out)@ + b64_group(g)->0);
        }
    } else {
        proof {
            if end - i > 2 {
                assert(g[2] == s@[i + 2]);
            }
        }
        assert(final(out)@ =~= old(out)@ + b64_group(g)->0);
    }
    true
}

/// Decode a base64 string; white space is skipped, `=` padding ends a group.
pub fn base64_decode(input: &str) -> (r: Option<Vec<u8>>)
    ensures
        r matches Some(v) ==> base64_decode_seq(input.spec_bytes()) == Some(v@),
        r is None ==> base64_decode_seq(input.spec_bytes()) is None,
{
    let bytes = input.as_bytes();
        let mut chars: Vec<u8> = Vec::new();
    let mut k: usize = 0;
    while k < bytes.len()
        invariant
            k <= bytes@.len(),
            chars@ == bytes@.take(k as int).filter(b64_keep()),
        decreases bytes.len() - k,
    {
        let b = bytes[k];
        proof {
            assert(bytes@.take(k + 1) =~= bytes@.take(k as int).push(b));
            bytes@.take(k as int).lemma_filter_push(b, b64_keep());
            assert(b64_keep()(b) == !is_b64_space(b));
        }
        if !(b == 0x20 || b == 0x09 || b == 0x0a || b == 0x0c || b == 0x0d) {
            chars.push(b);
        }
        k += 1;
    }
    assert(bytes@.take(bytes@.len() as int) =~= bytes@);
    let ghost s = chars@;
    let mut out: Vec<u8> = Vec::new();
    let mut i: usize = 0;
    assert(s.skip(0) =~= s);
    assert(out@ + Seq::<u8>::empty() =~= Seq::<u8>::empty());
    while i < chars.len() && chars.len() - i >= 2
        invariant
            s == chars@,
            i <= chars.len(),
            base64_decode_seq(input.spec_bytes()) == b64_groups(s),
            (b64_groups(s.skip(i as int)) matches Some(rest) ==> b64_groups(s) == Some(out@ + rest)),
            (b64_groups(s.skip(i as int)) is None ==> b64_groups(s) is None),
        decreases chars.len() - i,
    {
        let ghost t = s.skip(i as int);
        let ghost before = out@;
        let ok = decode_group(&chars, i, &mut out);
        if chars.len() - i < 4 {
            assert(s.subrange(i as int, chars.len() as int) =~= t);
            if !ok {
                return None;
            }
            assert(b64_groups(s) == Some(out@)) by {
                assert(before + b64_group(t)->0 =~= out@);
            }
            proof {
                assert(s.skip(chars.len() as int).len() == 0);
            }
            i = chars.len();
            assert(b64_groups(s.skip(i as int)) == Some(Seq::<u8>::empty()));
            assert(out@ + Seq::<u8>::empty() =~= out@);
        } else {
            assert(s.subrange(i as int, i + 4) =~= t.take(4));
            assert(t.skip(4) =~= s.skip(i + 4));
            if !ok {
                return None;
            }
            proof {
                if let Some(rest) = b64_groups(s.skip(i + 4)) {
                    assert(before + (b64_group(t.take(4))->0 + rest) =~= out@ + rest);
                }
            }
            i = i + 4;
        }
    }
    proof {
        assert(s.skip(i as int).len() < 2);
        assert(out@ + Seq::<u8>::empty() =~= out@);
    }
    Some(out)
}

} // verus!
