//! The rendered page: a fixed HTML template with five placeholders, filled by
//! literal substitution.
//!
//! The template is held as the literal segments between its placeholders, so
//! that where each placeholder stands is part of the template's definition;
//! `template` yields the whole document with the placeholders in place.

use vstd::prelude::*;
use vstd::string::*;
use crate::config::{hostname_or_default, spec_hostname, spec_subtitle, subtitle_or_default, view_of};
use crate::numbers::{spec_dec, u64_to_string};
use crate::text::{
    lemma_braced_no_overlap, lemma_replace_inserts, lemma_replace_preserves, lemma_value_no_overlap,
    occurs, occurs_at, replace_all, spec_replace,
};

verus! {

pub const SEG_TO_SUBTITLE: &'static str = r#"<!DOCTYPE html>
<html lang="en">
<head>
    <meta charset="UTF-8">
    <meta name="viewport" content="width=device-width, initial-scale=1.0">
    <title>Kubernetes Workshop - Rust App</title>
    <style>
        * {
            margin: 0;
            padding: 0;
            box-sizing: border-box;
        }

        body {
            font-family: -apple-system, BlinkMacSystemFont, 'Segoe UI', Roboto, Oxygen, Ubuntu, Cantarell, sans-serif;
            background: linear-gradient(135deg, #667eea 0%, #764ba2 100%);
            min-height: 100vh;
            display: flex;
            align-items: center;
            justify-content: center;
            padding: 20px;
        }

        .container {
            background: white;
            border-radius: 20px;
            box-shadow: 0 20px 60px rgba(0, 0, 0, 0.3);
            padding: 60px;
            max-width: 600px;
            text-align: center;
        }

        .logo {
            width: 120px;
            height: 120px;
            margin: 0 auto 30px;
        }

        h1 {
            color: #2d3748;
            font-size: 2.5em;
            margin-bottom: 10px;
        }

        .language {
            color: #CE422B;
            font-weight: bold;
        }

        .subtitle {
            color: #718096;
            font-size: 1.2em;
            margin-bottom: 30px;
        }

        .info {
            background: #f7fafc;
            border-radius: 10px;
            padding: 20px;
            margin-top: 30px;
        }

        .info-item {
            display: flex;
            justify-content: space-between;
            padding: 10px 0;
            border-bottom: 1px solid #e2e8f0;
        }

        .info-item:last-child {
            border-bottom: none;
        }

        .info-label {
            color: #718096;
            font-weight: 500;
        }

        .info-value {
            color: #2d3748;
            font-family: 'Monaco', 'Courier New', monospace;
            font-size: 0.9em;
        }

        .footer {
            margin-top: 30px;
            padding-top: 20px;
            border-top: 1px solid #e2e8f0;
            display: flex;
            align-items: center;
            justify-content: center;
            gap: 10px;
        }

        .kubernetes-badge {
            display: inline-flex;
            align-items: center;
            gap: 8px;
            background: #326ce5;
            color: white;
            padding: 8px 16px;
            border-radius: 20px;
            font-size: 0.9em;
        }

        .k8s-logo {
            width: 20px;
            height: 20px;
            filter: brightness(0) invert(1);
        }
    </style>
</head>
<body>
    <div class="container">
        <div class="logo">
            <img src="https://cdn.jsdelivr.net/gh/devicons/devicon/icons/rust/rust-original.svg" alt="Rust" />
        </div>

        <h1>Hello from <span class="language">Rust</span>!</h1>
        <p class="subtitle">"#;

pub const SEG_TO_VERSION: &'static str = r#"</p>

        <div class="info">
            <div class="info-item">
                <span class="info-label">Version:</span>
                <span class="info-value">Rust "#;

pub const SEG_TO_PATH: &'static str = r#"</span>
            </div>
            <div class="info-item">
                <span class="info-label">Request Path:</span>
                <span class="info-value">"#;

pub const SEG_TO_HOSTNAME: &'static str = r#"</span>
            </div>
            <div class="info-item">
                <span class="info-label">Hostname:</span>
                <span class="info-value">"#;

pub const SEG_TO_COUNT: &'static str = r#"</span>
            </div>
            <div class="info-item">
                <span class="info-label">Request Count:</span>
                <span class="info-value">"#;

pub const SEG_END: &'static str = r#"</span>
            </div>
        </div>

        <div class="footer">
            <div class="kubernetes-badge">
                <img src="https://cdn.jsdelivr.net/gh/devicons/devicon/icons/kubernetes/kubernetes-plain.svg" alt="Kubernetes" class="k8s-logo" />
                <span>Running on Kubernetes</span>
            </div>
        </div>
    </div>
</body>
</html>"#;

/// The page template: the segments joined around the placeholders
/// `{subtitle}`, `{rust_version}`, `{path}`, `{hostname}`, `{request_count}`.
pub open spec fn spec_template() -> Seq<char> {
    SEG_TO_SUBTITLE@ + "{subtitle}"@ + SEG_TO_VERSION@ + "{rust_version}"@ + SEG_TO_PATH@
        + "{path}"@ + SEG_TO_HOSTNAME@ + "{hostname}"@ + SEG_TO_COUNT@ + "{request_count}"@
        + SEG_END@
}

/// The whole template, placeholders still in place.
pub fn template() -> (r: String)
    ensures
        r@ == spec_template(),
{
    let mut t = SEG_TO_SUBTITLE.to_owned();
    t.append("{subtitle}");
    t.append(SEG_TO_VERSION);
    t.append("{rust_version}");
    t.append(SEG_TO_PATH);
    t.append("{path}");
    t.append(SEG_TO_HOSTNAME);
    t.append("{hostname}");
    t.append(SEG_TO_COUNT);
    t.append("{request_count}");
    t.append(SEG_END);
    proof {
        assert(t@ =~= spec_template());
    }
    t
}

/// The page after the first four substitutions, before the subtitle goes in.
pub open spec fn spec_page_before_subtitle(
    version: Seq<char>,
    path: Seq<char>,
    hostname: Seq<char>,
    count: u64,
) -> Seq<char> {
    let s1 = spec_replace(spec_template(), "{rust_version}"@, version);
    let s2 = spec_replace(s1, "{path}"@, path);
    let s3 = spec_replace(s2, "{hostname}"@, hostname);
    spec_replace(s3, "{request_count}"@, spec_dec(count as nat))
}

/// The fully rendered page for the given values.
pub open spec fn spec_render_page(
    version: Seq<char>,
    path: Seq<char>,
    hostname: Seq<char>,
    count: u64,
    subtitle: Seq<char>,
) -> Seq<char> {
    spec_replace(spec_page_before_subtitle(version, path, hostname, count), "{subtitle}"@, subtitle)
}

/// Render the page: substitute the five values into the template, leftmost
/// occurrences first, in the order version, path, hostname, count, subtitle.
pub fn render_page(version: &str, path: &str, hostname: &str, count: u64, subtitle: &str) -> (r:
    String)
    ensures
        r@ == spec_render_page(version@, path@, hostname@, count, subtitle@),
{
    let t = template();
    let s1 = replace_all(t.as_str(), "{rust_version}", version);
    let s2 = replace_all(s1.as_str(), "{path}", path);
    let s3 = replace_all(s2.as_str(), "{hostname}", hostname);
    let num = u64_to_string(count);
    let s4 = replace_all(s3.as_str(), "{request_count}", num.as_str());
    replace_all(s4.as_str(), "{subtitle}", subtitle)
}

/// The whole response computation for one request: the counter value already
/// drawn, the request path, and the hostname and subtitle lookups as they came
/// back (`None` where a lookup failed, which degrades to the default).
pub fn render_response(
    count: u64,
    version: &str,
    path: &str,
    hostname: Option<String>,
    subtitle: Option<String>,
) -> (r: String)
    ensures
        r@ == spec_render_page(
            version@,
            path@,
            spec_hostname(view_of(hostname)),
            count,
            spec_subtitle(view_of(subtitle)),
        ),
{
    let host = hostname_or_default(hostname);
    let sub = subtitle_or_default(subtitle);
    render_page(version, path, host.as_str(), count, sub.as_str())
}

/// Where the placeholders stand in the template: the subtitle one right after
/// the first segment, the path one after the first five parts, the count one
/// after the first nine.
proof fn lemma_template_placeholders()
    ensures
        occurs_at(spec_template(), "{subtitle}"@, SEG_TO_SUBTITLE@.len() as int),
        occurs_at(
            spec_template(),
            "{path}"@,
            (SEG_TO_SUBTITLE@.len() + "{subtitle}"@.len() + SEG_TO_VERSION@.len()
                + "{rust_version}"@.len() + SEG_TO_PATH@.len()) as int,
        ),
        occurs_at(
            spec_template(),
            "{request_count}"@,
            (SEG_TO_SUBTITLE@.len() + "{subtitle}"@.len() + SEG_TO_VERSION@.len()
                + "{rust_version}"@.len() + SEG_TO_PATH@.len() + "{path}"@.len()
                + SEG_TO_HOSTNAME@.len() + "{hostname}"@.len() + SEG_TO_COUNT@.len()) as int,
        ),
{
    let t = spec_template();
    let k0 = SEG_TO_SUBTITLE@.len() as int;
    assert(t.subrange(k0, k0 + "{subtitle}"@.len() as int) =~= "{subtitle}"@);
    let kp = (SEG_TO_SUBTITLE@.len() + "{subtitle}"@.len() + SEG_TO_VERSION@.len()
        + "{rust_version}"@.len() + SEG_TO_PATH@.len()) as int;
    assert(t.subrange(kp, kp + "{path}"@.len() as int) =~= "{path}"@);
    let kc = (SEG_TO_SUBTITLE@.len() + "{subtitle}"@.len() + SEG_TO_VERSION@.len()
        + "{rust_version}"@.len() + SEG_TO_PATH@.len() + "{path}"@.len() + SEG_TO_HOSTNAME@.len()
        + "{hostname}"@.len() + SEG_TO_COUNT@.len()) as int;
    assert(t.subrange(kc, kc + "{request_count}"@.len() as int) =~= "{request_count}"@);
}

/// The rendered page carries the subtitle, whatever the other values are: its
/// placeholder survives the first four substitutions, and the last one puts
/// the subtitle itself in its place.
pub proof fn lemma_page_contains_subtitle(
    version: Seq<char>,
    path: Seq<char>,
    hostname: Seq<char>,
    count: u64,
    subtitle: Seq<char>,
)
    ensures
        occurs(spec_render_page(version, path, hostname, count, subtitle), subtitle),
{
    reveal_strlit("{subtitle}");
    reveal_strlit("{rust_version}");
    reveal_strlit("{path}");
    reveal_strlit("{hostname}");
    reveal_strlit("{request_count}");
    let sub = "{subtitle}"@;
    let t = spec_template();
    lemma_template_placeholders();
    let k0 = SEG_TO_SUBTITLE@.len() as int;

    let pat1 = "{rust_version}"@;
    assert forall|p: int| occurs_at(t, pat1, p) implies p + pat1.len() <= k0 || k0 + sub.len()
        <= p by {
        lemma_braced_no_overlap(t, sub, pat1, k0, p, 1);
    }
    lemma_replace_preserves(t, pat1, version, sub, k0);
    let s1 = spec_replace(t, pat1, version);
    let k1 = choose|j: int| occurs_at(s1, sub, j);

    let pat2 = "{path}"@;
    assert forall|p: int| occurs_at(s1, pat2, p) implies p + pat2.len() <= k1 || k1 + sub.len()
        <= p by {
        lemma_braced_no_overlap(s1, sub, pat2, k1, p, 1);
    }
    lemma_replace_preserves(s1, pat2, path, sub, k1);
    let s2 = spec_replace(s1, pat2, path);
    let k2 = choose|j: int| occurs_at(s2, sub, j);

    let pat3 = "{hostname}"@;
    assert forall|p: int| occurs_at(s2, pat3, p) implies p + pat3.len() <= k2 || k2 + sub.len()
        <= p by {
        lemma_braced_no_overlap(s2, sub, pat3, k2, p, 1);
    }
    lemma_replace_preserves(s2, pat3, hostname, sub, k2);
    let s3 = spec_replace(s2, pat3, hostname);
    let k3 = choose|j: int| occurs_at(s3, sub, j);

    let pat4 = "{request_count}"@;
    assert forall|p: int| occurs_at(s3, pat4, p) implies p + pat4.len() <= k3 || k3 + sub.len()
        <= p by {
        lemma_braced_no_overlap(s3, sub, pat4, k3, p, 1);
    }
    lemma_replace_preserves(s3, pat4, spec_dec(count as nat), sub, k3);
    let s4 = spec_replace(s3, pat4, spec_dec(count as nat));
    assert(s4 == spec_page_before_subtitle(version, path, hostname, count));

    lemma_replace_inserts(s4, sub, subtitle);
}

/// The page for a given `SUBTITLE` setting carries the chosen subtitle: the
/// value itself when the setting is there, the default string when it is not.
pub proof fn lemma_page_subtitle_setting(
    version: Seq<char>,
    path: Seq<char>,
    hostname: Seq<char>,
    count: u64,
    setting: Option<Seq<char>>,
)
    ensures
        occurs(
            spec_render_page(version, path, hostname, count, spec_subtitle(setting)),
            spec_subtitle(setting),
        ),
        setting is None ==> occurs(
            spec_render_page(version, path, hostname, count, spec_subtitle(setting)),
            crate::config::spec_default_subtitle(),
        ),
{
    lemma_page_contains_subtitle(version, path, hostname, count, spec_subtitle(setting));
}

/// The rendered page carries the request path literally, for any path in the
/// shape requests take: non-empty, starting with a slash, free of braces. Its
/// placeholder survives the version substitution, the path then stands in the
/// page, and no later substitution can touch it.
pub proof fn lemma_page_contains_path(
    version: Seq<char>,
    path: Seq<char>,
    hostname: Seq<char>,
    count: u64,
    subtitle: Seq<char>,
)
    requires
        path.len() >= 1,
        path[0] == '/',
        forall|i: int| 0 <= i < path.len() ==> path[i] != '{' && path[i] != '}',
    ensures
        occurs(spec_render_page(version, path, hostname, count, subtitle), path),
{
    reveal_strlit("{subtitle}");
    reveal_strlit("{rust_version}");
    reveal_strlit("{path}");
    reveal_strlit("{hostname}");
    reveal_strlit("{request_count}");
    let ppat = "{path}"@;
    let t = spec_template();
    lemma_template_placeholders();
    let kp = (SEG_TO_SUBTITLE@.len() + "{subtitle}"@.len() + SEG_TO_VERSION@.len()
        + "{rust_version}"@.len() + SEG_TO_PATH@.len()) as int;

    let pat1 = "{rust_version}"@;
    assert forall|p: int| occurs_at(t, pat1, p) implies p + pat1.len() <= kp || kp + ppat.len()
        <= p by {
        lemma_braced_no_overlap(t, ppat, pat1, kp, p, 1);
    }
    lemma_replace_preserves(t, pat1, version, ppat, kp);
    let s1 = spec_replace(t, pat1, version);
    let k1 = choose|j: int| occurs_at(s1, ppat, j);

    lemma_replace_inserts(s1, ppat, path);
    let s2 = spec_replace(s1, ppat, path);
    let k2 = choose|j: int| occurs_at(s2, path, j);

    let pat3 = "{hostname}"@;
    assert forall|p: int| occurs_at(s2, pat3, p) implies p + pat3.len() <= k2 || k2 + path.len()
        <= p by {
        lemma_value_no_overlap(s2, pat3, path, k2, p);
    }
    lemma_replace_preserves(s2, pat3, hostname, path, k2);
    let s3 = spec_replace(s2, pat3, hostname);
    let k3 = choose|j: int| occurs_at(s3, path, j);

    let pat4 = "{request_count}"@;
    assert forall|p: int| occurs_at(s3, pat4, p) implies p + pat4.len() <= k3 || k3 + path.len()
        <= p by {
        lemma_value_no_overlap(s3, pat4, path, k3, p);
    }
    lemma_replace_preserves(s3, pat4, spec_dec(count as nat), path, k3);
    let s4 = spec_replace(s3, pat4, spec_dec(count as nat));
    let k4 = choose|j: int| occurs_at(s4, path, j);
    assert(s4 == spec_page_before_subtitle(version, path, hostname, count));

    let pat5 = "{subtitle}"@;
    assert forall|p: int| occurs_at(s4, pat5, p) implies p + pat5.len() <= k4 || k4 + path.len()
        <= p by {
        lemma_value_no_overlap(s4, pat5, path, k4, p);
    }
    lemma_replace_preserves(s4, pat5, subtitle, path, k4);
}

/// The rendered page carries the request count in decimal, whatever the other
/// values are: its placeholder survives the first three substitutions, the
/// digits then stand in the page, and the subtitle substitution cannot touch
/// them.
pub proof fn lemma_page_contains_count(
    version: Seq<char>,
    path: Seq<char>,
    hostname: Seq<char>,
    count: u64,
    subtitle: Seq<char>,
)
    ensures
        occurs(spec_render_page(version, path, hostname, count, subtitle), spec_dec(count as nat)),
{
    reveal_strlit("{subtitle}");
    reveal_strlit("{rust_version}");
    reveal_strlit("{path}");
    reveal_strlit("{hostname}");
    reveal_strlit("{request_count}");
    let cpat = "{request_count}"@;
    let t = spec_template();
    lemma_template_placeholders();
    let kc = (SEG_TO_SUBTITLE@.len() + "{subtitle}"@.len() + SEG_TO_VERSION@.len()
        + "{rust_version}"@.len() + SEG_TO_PATH@.len() + "{path}"@.len() + SEG_TO_HOSTNAME@.len()
        + "{hostname}"@.len() + SEG_TO_COUNT@.len()) as int;

    let pat1 = "{rust_version}"@;
    assert forall|p: int| occurs_at(t, pat1, p) implies p + pat1.len() <= kc || kc + cpat.len()
        <= p by {
        lemma_braced_no_overlap(t, cpat, pat1, kc, p, 2);
    }
    lemma_replace_preserves(t, pat1, version, cpat, kc);
    let s1 = spec_replace(t, pat1, version);
    let k1 = choose|j: int| occurs_at(s1, cpat, j);

    let pat2 = "{path}"@;
    assert forall|p: int| occurs_at(s1, pat2, p) implies p + pat2.len() <= k1 || k1 + cpat.len()
        <= p by {
        lemma_braced_no_overlap(s1, cpat, pat2, k1, p, 1);
    }
    lemma_replace_preserves(s1, pat2, path, cpat, k1);
    let s2 = spec_replace(s1, pat2, path);
    let k2 = choose|j: int| occurs_at(s2, cpat, j);

    let pat3 = "{hostname}"@;
    assert forall|p: int| occurs_at(s2, pat3, p) implies p + pat3.len() <= k2 || k2 + cpat.len()
        <= p by {
        lemma_braced_no_overlap(s2, cpat, pat3, k2, p, 1);
    }
    lemma_replace_preserves(s2, pat3, hostname, cpat, k2);
    let s3 = spec_replace(s2, pat3, hostname);
    let k3 = choose|j: int| occurs_at(s3, cpat, j);

    let digits = spec_dec(count as nat);
    crate::numbers::lemma_spec_dec_digits(count as nat);
    lemma_replace_inserts(s3, cpat, digits);
    let s4 = spec_replace(s3, cpat, digits);
    let k4 = choose|j: int| occurs_at(s4, digits, j);
    assert(s4 == spec_page_before_subtitle(version, path, hostname, count));

    let pat5 = "{subtitle}"@;
    assert forall|p: int| occurs_at(s4, pat5, p) implies p + pat5.len() <= k4 || k4 + digits.len()
        <= p by {
        assert(forall|i: int|
            0 <= i < digits.len() ==> digits[i] != '{' && digits[i] != '}');
        assert(forall|i: int| 1 <= i < pat5.len() - 1 ==> pat5[i] != digits[0]);
        lemma_value_no_overlap(s4, pat5, digits, k4, p);
    }
    lemma_replace_preserves(s4, pat5, subtitle, digits, k4);
}

} // verus!
