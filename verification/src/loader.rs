//! The layered loader: composes the base document, the environment-specific
//! document and the environment-variable overlay, in that precedence order,
//! into one merged document, and reads it into the typed settings schema.
//!
//! The caller (the process edge) loads each named source and hands the
//! documents in; a missing file layer is handed in as `None` and rejected
//! here, so that no partial configuration is ever produced.

use vstd::prelude::*;

use crate::document::Doc;
use crate::document::Value;
use crate::document::doc_get;
use crate::document::doc_get_path;
use crate::document::get_entry;
use crate::document::lemma_merge_doc_get;
use crate::document::merge;
use crate::document::merge_doc;
use crate::error::ConfigError;
use crate::overlay::lemma_password_variable_overlay;
use crate::overlay::overlay_from_env;
use crate::overlay::overlay_of;
use crate::overlay::pairs_view;
use crate::settings::Settings;
use crate::settings::doc_str_field;
use crate::settings::section;
use crate::settings::settings_from_document;
use crate::settings::settings_matches;
use crate::settings::settings_ok;

verus! {

/// Resolves the configuration from its three layered sources.
///
/// `base` and `environment` are the two file layers, already read into
/// documents (`None` marks a source that could not be located); `env_vars`
/// is the process environment listing for the overlay. Later layers win
/// key-wise; the merged document is then read into the schema.
pub fn resolve_settings(
    base: Option<Value>,
    environment: Option<Value>,
    env_vars: &Vec<(String, String)>,
) -> (r: Result<Settings, ConfigError>)
    ensures
        base is None ==> (r matches Err(e) && e matches ConfigError::SourceMissing(m) && m@
            == "base"@),
        base is Some && environment is None ==> (r matches Err(e) && e
            matches ConfigError::SourceMissing(m) && m@ == "environment"@),
        base matches Some(b) ==> environment matches Some(o) ==> match overlay_of(
            pairs_view(env_vars@),
        ) {
            None => r matches Err(e) && e is EnvOverlayParse,
            Some(ov) => {
                let merged = merge_doc(merge_doc(b@, o@), ov);
                &&& (r is Ok <==> settings_ok(merged))
                &&& (r matches Ok(s) ==> settings_matches(merged, s))
                &&& (!settings_ok(merged) ==> (r matches Err(e) && e is Deserialize))
            },
        },
{
    let b = match base {
        Some(b) => b,
        None => {
            return Err(ConfigError::SourceMissing("base".to_owned()));
        },
    };
    let o = match environment {
        Some(o) => o,
        None => {
            return Err(ConfigError::SourceMissing("environment".to_owned()));
        },
    };
    let overlay = match overlay_from_env(env_vars) {
        Ok(v) => v,
        Err(e) => {
            return Err(e);
        },
    };
    let m1 = merge(&b, &o);
    let m2 = merge(&m1, &overlay);
    settings_from_document(&m2)
}

/// Law: an overlay that carries a non-table value `v` under the two-segment
/// path `k1.k2` overrides whatever the merged file layers hold there — the
/// final merged document yields `v` at that path, whatever `m` holds.
pub proof fn lemma_overlay_path_wins(m: Doc, k1: Seq<char>, k2: Seq<char>, v: Doc)
    requires
        !(v is Table),
    ensures
        doc_get_path(
            merge_doc(m, Doc::Table(seq![(k1, Doc::Table(seq![(k2, v)]))])),
            seq![k1, k2],
        ) == Some(v),
{
    let inner = Doc::Table(seq![(k2, v)]);
    let ov = Doc::Table(seq![(k1, inner)]);
    let merged = merge_doc(m, ov);
    let path = seq![k1, k2];
    assert(get_entry(seq![(k1, inner)], k1) == Some(inner));
    assert(get_entry(seq![(k2, v)], k2) == Some(v));
    assert(doc_get(ov, k1) == Some(inner));
    assert(doc_get(inner, k2) == Some(v));
    let child: Doc = if m is Table {
        lemma_merge_doc_get(m, ov, k1);
        match doc_get(m, k1) {
            Some(c) => merge_doc(c, inner),
            None => inner,
        }
    } else {
        assert(merged == ov);
        inner
    };
    assert(doc_get(merged, k1) == Some(child));
    if child != inner {
        let c = doc_get(m, k1)->0;
        assert(child == merge_doc(c, inner));
        if c is Table {
            lemma_merge_doc_get(c, inner, k2);
            match doc_get(c, k2) {
                Some(cv) => {
                    assert(merge_doc(cv, v) == v);
                },
                None => {},
            }
        } else {
            assert(child == inner);
        }
    }
    assert(doc_get(child, k2) == Some(v));
    assert(path.drop_first() =~= seq![k2]);
    assert(seq![k2].drop_first() =~= Seq::<Seq<char>>::empty());
    assert(doc_get_path(v, Seq::<Seq<char>>::empty()) == Some(v));
    assert(doc_get_path(child, seq![k2]) == Some(v));
    assert(doc_get_path(merged, path) == Some(v));
}

/// Law: an overlay variable that maps to `postgres.password` overrides both
/// file layers — whatever the merged file layers `m` hold, settings read
/// from the final merged document carry the overlay's password.
pub proof fn lemma_overlay_password_overrides(m: Doc, pw: Seq<char>, s: Settings)
    requires
        settings_matches(
            merge_doc(
                m,
                Doc::Table(
                    seq![("postgres"@, Doc::Table(seq![("password"@, Doc::Str(pw))]))],
                ),
            ),
            s,
        ),
    ensures
        s.postgres.password.spec_inner()@ == pw,
{
    let ov = Doc::Table(seq![("postgres"@, Doc::Table(seq![("password"@, Doc::Str(pw))]))]);
    let merged = merge_doc(m, ov);
    lemma_overlay_path_wins(m, "postgres"@, "password"@, Doc::Str(pw));
    let path = seq![
        "postgres"@,
        "password"@,
    ];
    assert(doc_get_path(merged, path) == Some(Doc::Str(pw)));
    let p = section(merged, "postgres"@)->0;
    assert(doc_get(merged, "postgres"@) == Some(Doc::Table(p)));
    assert(path.drop_first() =~= seq!["password"@]);
    assert(doc_get_path(Doc::Table(p), seq!["password"@]) == Some(Doc::Str(pw)));
    assert(seq!["password"@].drop_first() =~= Seq::<Seq<char>>::empty());
    assert(seq!["password"@][0] == "password"@);
    assert(doc_get(Doc::Table(p), "password"@) == get_entry(p, "password"@));
    if get_entry(p, "password"@) is Some {
        let c2 = get_entry(p, "password"@)->0;
        assert(doc_get_path(c2, Seq::<Seq<char>>::empty()) == Some(c2));
    }
    assert(get_entry(p, "password"@) == Some(Doc::Str(pw)));
    assert(doc_str_field(p, "password"@) == Some(pw));
}

/// Law: resolution under the single overlay variable
/// `APP_POSTGRES__PASSWORD` yields that variable's value as the database
/// password, whatever the two file layers hold.
pub proof fn lemma_password_variable_wins(b: Doc, o: Doc, pw: Seq<char>, s: Settings)
    requires
        settings_matches(
            merge_doc(merge_doc(b, o), overlay_of(seq![("APP_POSTGRES__PASSWORD"@, pw)])->0),
            s,
        ),
    ensures
        s.postgres.password.spec_inner()@ == pw,
{
    lemma_password_variable_overlay(pw);
    lemma_overlay_password_overrides(merge_doc(b, o), pw, s);
}

} // verus!


