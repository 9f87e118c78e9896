//! Choosing units and a user-interface language from a system locale tag.
use vstd::prelude::*;
use crate::text::{chars_of, eq_str, has_prefix, lower, lower_vec, starts_with};
use crate::types::Units;

verus! {

/// Unit system customary for a locale tag (BCP 47 like `en-US`, or POSIX like
/// `en_US.UTF-8`): the United States, Liberia and Myanmar use imperial units, the
/// United Kingdom the British mix, everyone else metric.
pub open spec fn spec_units_for_locale(s: Seq<char>) -> Units {
    if has_prefix(s, "en-US"@) || has_prefix(s, "en-LR"@) || has_prefix(s, "my-"@) || s
        == "en_US"@ || has_prefix(s, "en_US."@) {
        Units::Imperial
    } else if has_prefix(s, "en-GB"@) || s == "en_GB"@ || has_prefix(s, "en_GB."@) {
        Units::British
    } else {
        Units::Metric
    }
}

proof fn lemma_prefix_char(t: Seq<char>, p: Seq<char>, i: int)
    requires
        has_prefix(t, p),
        0 <= i < p.len(),
    ensures
        t[i] == p[i],
{
    assert(t.subrange(0, p.len() as int)[i] == t[i]);
}

proof fn lemma_prefix_of_concat(p: Seq<char>, rest: Seq<char>)
    ensures
        has_prefix(p + rest, p),
{
    assert((p + rest).subrange(0, p.len() as int) =~= p);
}

/// Tags for the United States, Liberia and Myanmar give imperial units and tags for the
/// United Kingdom the British mix, whatever follows the region; a tag whose first two
/// letters are another language than English or Burmese gives metric units.
pub proof fn law_units_by_region(rest: Seq<char>, lang: Seq<char>)
    ensures
        spec_units_for_locale("en-US"@ + rest) == Units::Imperial,
        spec_units_for_locale("en-LR"@ + rest) == Units::Imperial,
        spec_units_for_locale("my-"@ + rest) == Units::Imperial,
        spec_units_for_locale("en_US."@ + rest) == Units::Imperial,
        spec_units_for_locale("en-GB"@ + rest) == Units::British,
        spec_units_for_locale("en_GB."@ + rest) == Units::British,
        lang.len() == 2 && lang != "en"@ && lang != "my"@ ==> spec_units_for_locale(lang + rest)
            == Units::Metric,
{
    reveal_strlit("en-US");
    reveal_strlit("en-LR");
    reveal_strlit("my-");
    reveal_strlit("en_US.");
    reveal_strlit("en-GB");
    reveal_strlit("en_GB.");
    reveal_strlit("en_US");
    reveal_strlit("en_GB");
    reveal_strlit("en");
    reveal_strlit("my");
    lemma_prefix_of_concat("en-US"@, rest);
    lemma_prefix_of_concat("en-LR"@, rest);
    lemma_prefix_of_concat("my-"@, rest);
    lemma_prefix_of_concat("en_US."@, rest);
    lemma_prefix_of_concat("en-GB"@, rest);
    lemma_prefix_of_concat("en_GB."@, rest);
    let g1 = "en-GB"@ + rest;
    lemma_prefix_char(g1, "en-GB"@, 2);
    lemma_prefix_char(g1, "en-GB"@, 3);
    if has_prefix(g1, "en-US"@) { lemma_prefix_char(g1, "en-US"@, 3); }
    if has_prefix(g1, "en-LR"@) { lemma_prefix_char(g1, "en-LR"@, 3); }
    if has_prefix(g1, "my-"@) { lemma_prefix_char(g1, "my-"@, 0); lemma_prefix_char(g1, "en-GB"@, 0); }
    if has_prefix(g1, "en_US."@) { lemma_prefix_char(g1, "en_US."@, 2); }
    if g1 == "en_US"@ { assert(g1[2] == '_'); }
    let g2 = "en_GB."@ + rest;
    lemma_prefix_char(g2, "en_GB."@, 2);
    lemma_prefix_char(g2, "en_GB."@, 3);
    lemma_prefix_char(g2, "en_GB."@, 0);
    if has_prefix(g2, "en-US"@) { lemma_prefix_char(g2, "en-US"@, 2); }
    if has_prefix(g2, "en-LR"@) { lemma_prefix_char(g2, "en-LR"@, 2); }
    if has_prefix(g2, "my-"@) { lemma_prefix_char(g2, "my-"@, 0); }
    if has_prefix(g2, "en_US."@) { lemma_prefix_char(g2, "en_US."@, 3); }
    if g2 == "en_US"@ { assert(g2[3] == 'U'); }
    if lang.len() == 2 && lang != "en"@ && lang != "my"@ {
        let t = lang + rest;
        assert(t[0] == lang[0] && t[1] == lang[1]);
        assert(!(lang[0] == 'e' && lang[1] == 'n')) by {
            if lang[0] == 'e' && lang[1] == 'n' {
                assert(lang =~= "en"@);
            }
        }
        assert(!(lang[0] == 'm' && lang[1] == 'y')) by {
            if lang[0] == 'm' && lang[1] == 'y' {
                assert(lang =~= "my"@);
            }
        }
        if has_prefix(t, "en-US"@) { lemma_prefix_char(t, "en-US"@, 0); lemma_prefix_char(t, "en-US"@, 1); }
        if has_prefix(t, "en-LR"@) { lemma_prefix_char(t, "en-LR"@, 0); lemma_prefix_char(t, "en-LR"@, 1); }
        if has_prefix(t, "my-"@) { lemma_prefix_char(t, "my-"@, 0); lemma_prefix_char(t, "my-"@, 1); }
        if has_prefix(t, "en_US."@) { lemma_prefix_char(t, "en_US."@, 0); lemma_prefix_char(t, "en_US."@, 1); }
        if has_prefix(t, "en-GB"@) { lemma_prefix_char(t, "en-GB"@, 0); lemma_prefix_char(t, "en-GB"@, 1); }
        if has_prefix(t, "en_GB."@) { lemma_prefix_char(t, "en_GB."@, 0); lemma_prefix_char(t, "en_GB."@, 1); }
        if t == "en_US"@ { assert(t[0] == 'e' && t[1] == 'n'); }
        if t == "en_GB"@ { assert(t[0] == 'e' && t[1] == 'n'); }
    }
}

/// Unit system customary for a locale tag.
pub fn units_for_locale(bcp47: &str) -> (r: Units)
    ensures
        r == spec_units_for_locale(bcp47@),
{
    let v = chars_of(bcp47);
    if starts_with(&v, "en-US") || starts_with(&v, "en-LR") || starts_with(&v, "my-") || eq_str(
        &v,
        "en_US",
    ) || starts_with(&v, "en_US.") {
        Units::Imperial
    } else if starts_with(&v, "en-GB") || eq_str(&v, "en_GB") || starts_with(&v, "en_GB.") {
        Units::British
    } else {
        Units::Metric
    }
}

/// Separators between the subtags of a locale tag.
pub open spec fn is_sep(c: char) -> bool {
    c == '-' || c == '_' || c == '.'
}

/// Scanning state after reading `s`: the finished non-empty parts and the part being read.
pub open spec fn split_state(s: Seq<char>) -> (Seq<Seq<char>>, Seq<char>)
    decreases s.len(),
{
    if s.len() == 0 {
        (Seq::empty(), Seq::empty())
    } else {
        let st = split_state(s.drop_last());
        let c = s.last();
        if is_sep(c) {
            if st.1.len() > 0 {
                (st.0.push(st.1), Seq::empty())
            } else {
                (st.0, Seq::empty())
            }
        } else {
            (st.0, st.1.push(c))
        }
    }
}

/// The non-empty subtags of a locale tag, split at `-`, `_` and `.`.
pub open spec fn locale_parts(s: Seq<char>) -> Seq<Seq<char>> {
    let st = split_state(s);
    if st.1.len() > 0 {
        st.0.push(st.1)
    } else {
        st.0
    }
}

/// Interface language for a lower-cased primary language subtag, English when there is
/// no catalog for it.
pub open spec fn lang_of_prefix(p: Seq<char>) -> Seq<char> {
    if p == "ca"@ { "ca"@ }
    else if p == "cs"@ { "cs"@ }
    else if p == "da"@ { "da"@ }
    else if p == "de"@ { "de"@ }
    else if p == "el"@ { "el"@ }
    else if p == "fi"@ { "fi"@ }
    else if p == "hr"@ { "hr"@ }
    else if p == "hu"@ { "hu"@ }
    else if p == "it"@ { "it"@ }
    else if p == "nb"@ { "nb"@ }
    else if p == "nl"@ { "nl"@ }
    else if p == "pl"@ { "pl"@ }
    else if p == "ro"@ { "ro"@ }
    else if p == "ru"@ { "ru"@ }
    else if p == "sk"@ { "sk"@ }
    else if p == "sv"@ { "sv"@ }
    else if p == "tr"@ { "tr"@ }
    else if p == "uk"@ { "uk"@ }
    else { "en"@ }
}

/// Interface language (catalog name) for a locale tag. Portuguese, Spanish and French
/// are split by region: Brazil (or no region) uses `pt-br`, other regions `pt-pt`; Spain
/// uses `es-es`, every other region (or none) `es-419`; Canada uses `fr-ca`, every other
/// region `fr-fr`. Subtags compare without regard to ASCII case.
pub open spec fn spec_lang_for_locale(s: Seq<char>) -> Seq<char> {
    let parts = locale_parts(s);
    if parts.len() > 0 && lower(parts[0]) == "pt"@ {
        if parts.len() < 2 || lower(parts[1]) == "br"@ { "pt-br"@ } else { "pt-pt"@ }
    } else if parts.len() > 0 && lower(parts[0]) == "es"@ {
        if parts.len() >= 2 && lower(parts[1]) == "es"@ { "es-es"@ } else { "es-419"@ }
    } else if parts.len() > 0 && lower(parts[0]) == "fr"@ {
        if parts.len() >= 2 && lower(parts[1]) == "ca"@ { "fr-ca"@ } else { "fr-fr"@ }
    } else if parts.len() > 0 {
        lang_of_prefix(lower(parts[0]))
    } else {
        "en"@
    }
}

/// The interface languages named by a primary language subtag alone (the others with a
/// catalog, Portuguese, Spanish and French, are split by region).
pub open spec fn single_catalog(p: Seq<char>) -> bool {
    p == "ca"@ || p == "cs"@ || p == "da"@ || p == "de"@ || p == "el"@ || p == "fi"@ || p == "hr"@
        || p == "hu"@ || p == "it"@ || p == "nb"@ || p == "nl"@ || p == "pl"@ || p == "ro"@ || p
        == "ru"@ || p == "sk"@ || p == "sv"@ || p == "tr"@ || p == "uk"@ || p == "en"@
}

/// A tag that starts with the subtag `p` (no separator in it), then ends or goes on
/// after a separator.
pub open spec fn starts_with_subtag(s: Seq<char>, p: Seq<char>) -> bool {
    &&& p.len() > 0
    &&& p.len() <= s.len()
    &&& s.subrange(0, p.len() as int) == p
    &&& forall|i: int| 0 <= i < p.len() ==> !is_sep(#[trigger] p[i])
    &&& (p.len() == s.len() || is_sep(s[p.len() as int]))
}

proof fn lemma_split_first(p: Seq<char>, r: Seq<char>)
    requires
        p.len() > 0,
        forall|i: int| 0 <= i < p.len() ==> !is_sep(#[trigger] p[i]),
        r.len() == 0 || is_sep(r[0]),
    ensures
        r.len() == 0 ==> split_state(p + r) == (Seq::<Seq<char>>::empty(), p),
        r.len() > 0 ==> split_state(p + r).0.len() >= 1 && split_state(p + r).0[0] == p,
    decreases p.len() + r.len(),
{
    if r.len() == 0 {
        assert(p + r =~= p);
        lemma_split_plain(p);
    } else {
        let r1 = r.drop_last();
        assert((p + r).drop_last() =~= p + r1);
        assert((p + r).last() == r.last());
        if r1.len() > 0 {
            assert(r1[0] == r[0]);
        }
        lemma_split_first(p, r1);
        if r1.len() == 0 {
            assert(r.len() == 1 && r.last() == r[0]);
        }
    }
}

proof fn lemma_split_plain(p: Seq<char>)
    requires
        forall|i: int| 0 <= i < p.len() ==> !is_sep(#[trigger] p[i]),
    ensures
        split_state(p) == (Seq::<Seq<char>>::empty(), p),
    decreases p.len(),
{
    if p.len() > 0 {
        let q = p.drop_last();
        assert forall|i: int| 0 <= i < q.len() implies !is_sep(#[trigger] q[i]) by {
            assert(q[i] == p[i]);
        }
        lemma_split_plain(q);
        assert(!is_sep(p[p.len() - 1]));
        assert(q.push(p.last()) =~= p);
    }
}

proof fn lemma_single_catalog_prefix(q: Seq<char>)
    requires
        single_catalog(q),
    ensures
        lang_of_prefix(q) == q,
        q != "pt"@ && q != "es"@ && q != "fr"@,
{
    reveal_strlit("ca");
    reveal_strlit("cs");
    reveal_strlit("da");
    reveal_strlit("de");
    reveal_strlit("el");
    reveal_strlit("fi");
    reveal_strlit("hr");
    reveal_strlit("hu");
    reveal_strlit("it");
    reveal_strlit("nb");
    reveal_strlit("nl");
    reveal_strlit("pl");
    reveal_strlit("ro");
    reveal_strlit("ru");
    reveal_strlit("sk");
    reveal_strlit("sv");
    reveal_strlit("tr");
    reveal_strlit("uk");
    reveal_strlit("en");
    reveal_strlit("pt");
    reveal_strlit("es");
    reveal_strlit("fr");
    assert(q.len() == 2);
    assert(q == seq![q[0], q[1]]);
}

/// A locale whose primary language subtag, in any case, names a catalog of its own gets
/// that catalog: `da_DK.UTF-8` gives `da`, `DE-at` gives `de`; any other primary subtag
/// except Portuguese, Spanish and French gives English.
pub proof fn law_primary_subtag_selects_language(s: Seq<char>, p: Seq<char>)
    requires
        starts_with_subtag(s, p),
    ensures
        single_catalog(lower(p)) ==> spec_lang_for_locale(s) == lower(p),
        !single_catalog(lower(p)) && lower(p) != "pt"@ && lower(p) != "es"@ && lower(p) != "fr"@
            ==> spec_lang_for_locale(s) == "en"@,
{
    let r = s.subrange(p.len() as int, s.len() as int);
    assert(s =~= p + r);
    if r.len() > 0 {
        assert(r[0] == s[p.len() as int]);
    }
    lemma_split_first(p, r);
    assert(locale_parts(s).len() > 0 && locale_parts(s)[0] == p);
    if single_catalog(lower(p)) {
        lemma_single_catalog_prefix(lower(p));
    }
    reveal_strlit("ca");
    reveal_strlit("cs");
    reveal_strlit("da");
    reveal_strlit("de");
    reveal_strlit("el");
    reveal_strlit("fi");
    reveal_strlit("hr");
    reveal_strlit("hu");
    reveal_strlit("it");
    reveal_strlit("nb");
    reveal_strlit("nl");
    reveal_strlit("pl");
    reveal_strlit("ro");
    reveal_strlit("ru");
    reveal_strlit("sk");
    reveal_strlit("sv");
    reveal_strlit("tr");
    reveal_strlit("uk");
    reveal_strlit("en");
    reveal_strlit("pt");
    reveal_strlit("es");
    reveal_strlit("fr");
}

/// The contents of each character vector.
pub open spec fn views(vs: Seq<Vec<char>>) -> Seq<Seq<char>> {
    Seq::new(vs.len(), |i: int| vs[i]@)
}

/// Splits a locale tag into its non-empty subtags.
fn split_locale(v: &Vec<char>) -> (parts: Vec<Vec<char>>)
    ensures
        views(parts@) == locale_parts(v@),
{
    let mut parts: Vec<Vec<char>> = Vec::new();
    let mut cur: Vec<char> = Vec::new();
    let mut i: usize = 0;
    while i < v.len()
        invariant
            i <= v.len(),
            (views(parts@), cur@) == split_state(v@.subrange(0, i as int)),
        decreases v.len() - i,
    {
        let ghost pre = v@.subrange(0, i as int);
        let ghost next = v@.subrange(0, i + 1);
        assert(next.drop_last() =~= pre);
        let c = v[i];
        if c == '-' || c == '_' || c == '.' {
            if cur.len() > 0 {
                let ghost old_parts = views(parts@);
                let ghost old_cur = cur@;
                parts.push(cur);
                cur = Vec::new();
                assert(views(parts@) =~= old_parts.push(old_cur));
            }
        } else {
            cur.push(c);
        }
        i = i + 1;
    }
    assert(v@.subrange(0, v.len() as int) =~= v@);
    if cur.len() > 0 {
        let ghost old_parts = views(parts@);
        let ghost old_cur = cur@;
        parts.push(cur);
        assert(views(parts@) =~= old_parts.push(old_cur));
    }
    parts
}

/// Interface language for a lower-cased primary language subtag.
fn lang_of_prefix_exec(p: &Vec<char>) -> (r: &'static str)
    ensures
        r@ == lang_of_prefix(p@),
{
    if eq_str(p, "ca") { "ca" }
    else if eq_str(p, "cs") { "cs" }
    else if eq_str(p, "da") { "da" }
    else if eq_str(p, "de") { "de" }
    else if eq_str(p, "el") { "el" }
    else if eq_str(p, "fi") { "fi" }
    else if eq_str(p, "hr") { "hr" }
    else if eq_str(p, "hu") { "hu" }
    else if eq_str(p, "it") { "it" }
    else if eq_str(p, "nb") { "nb" }
    else if eq_str(p, "nl") { "nl" }
    else if eq_str(p, "pl") { "pl" }
    else if eq_str(p, "ro") { "ro" }
    else if eq_str(p, "ru") { "ru" }
    else if eq_str(p, "sk") { "sk" }
    else if eq_str(p, "sv") { "sv" }
    else if eq_str(p, "tr") { "tr" }
    else if eq_str(p, "uk") { "uk" }
    else { "en" }
}

/// Interface language (catalog name) for a locale tag.
pub fn lang_for_locale(bcp47: &str) -> (r: &'static str)
    ensures
        r@ == spec_lang_for_locale(bcp47@),
{
    let v = chars_of(bcp47);
    let parts = split_locale(&v);
    let ghost ps = locale_parts(v@);
    if parts.len() == 0 {
        return "en";
    }
    assert(parts[0]@ == ps[0]);
    let first = lower_vec(&parts[0]);
    let second: Option<Vec<char>> = if parts.len() >= 2 {
        assert(parts[1]@ == ps[1]);
        Some(lower_vec(&parts[1]))
    } else {
        None
    };
    if eq_str(&first, "pt") {
        match &second {
            None => "pt-br",
            Some(r) => if eq_str(r, "br") { "pt-br" } else { "pt-pt" },
        }
    } else if eq_str(&first, "es") {
        match &second {
            Some(r) => if eq_str(r, "es") { "es-es" } else { "es-419" },
            None => "es-419",
        }
    } else if eq_str(&first, "fr") {
        match &second {
            Some(r) => if eq_str(r, "ca") { "fr-ca" } else { "fr-fr" },
            None => "fr-fr",
        }
    } else {
        lang_of_prefix_exec(&first)
    }
}

/// A calendar locale for weekday and month names in dates.
#[allow(non_camel_case_types)]
#[derive(Clone, Copy, Debug, PartialEq, Eq, Structural)]
pub enum DateLocale {
    ca_ES,
    cs_CZ,
    da_DK,
    de_DE,
    el_GR,
    es_ES,
    es_MX,
    fi_FI,
    fr_FR,
    fr_CA,
    hr_HR,
    hu_HU,
    it_IT,
    nb_NO,
    nl_NL,
    pl_PL,
    pt_BR,
    pt_PT,
    ro_RO,
    ru_RU,
    sk_SK,
    sv_SE,
    tr_TR,
    uk_UA,
    en_US,
}

/// Calendar locale used with an interface language; `es-419` uses Mexican Spanish and
/// anything unknown uses US English.
pub open spec fn spec_chrono_locale(lang: Seq<char>) -> DateLocale {
    if lang == "ca"@ { DateLocale::ca_ES }
    else if lang == "cs"@ { DateLocale::cs_CZ }
    else if lang == "da"@ { DateLocale::da_DK }
    else if lang == "de"@ { DateLocale::de_DE }
    else if lang == "el"@ { DateLocale::el_GR }
    else if lang == "es-es"@ { DateLocale::es_ES }
    else if lang == "es-419"@ { DateLocale::es_MX }
    else if lang == "fi"@ { DateLocale::fi_FI }
    else if lang == "fr-fr"@ { DateLocale::fr_FR }
    else if lang == "fr-ca"@ { DateLocale::fr_CA }
    else if lang == "hr"@ { DateLocale::hr_HR }
    else if lang == "hu"@ { DateLocale::hu_HU }
    else if lang == "it"@ { DateLocale::it_IT }
    else if lang == "nb"@ { DateLocale::nb_NO }
    else if lang == "nl"@ { DateLocale::nl_NL }
    else if lang == "pl"@ { DateLocale::pl_PL }
    else if lang == "pt-br"@ { DateLocale::pt_BR }
    else if lang == "pt-pt"@ { DateLocale::pt_PT }
    else if lang == "ro"@ { DateLocale::ro_RO }
    else if lang == "ru"@ { DateLocale::ru_RU }
    else if lang == "sk"@ { DateLocale::sk_SK }
    else if lang == "sv"@ { DateLocale::sv_SE }
    else if lang == "tr"@ { DateLocale::tr_TR }
    else if lang == "uk"@ { DateLocale::uk_UA }
    else { DateLocale::en_US }
}

/// Calendar locale used with an interface language.
pub fn chrono_locale(lang: &str) -> (r: DateLocale)
    ensures
        r == spec_chrono_locale(lang@),
{
    let v = chars_of(lang);
    if eq_str(&v, "ca") { DateLocale::ca_ES }
    else if eq_str(&v, "cs") { DateLocale::cs_CZ }
    else if eq_str(&v, "da") { DateLocale::da_DK }
    else if eq_str(&v, "de") { DateLocale::de_DE }
    else if eq_str(&v, "el") { DateLocale::el_GR }
    else if eq_str(&v, "es-es") { DateLocale::es_ES }
    else if eq_str(&v, "es-419") { DateLocale::es_MX }
    else if eq_str(&v, "fi") { DateLocale::fi_FI }
    else if eq_str(&v, "fr-fr") { DateLocale::fr_FR }
    else if eq_str(&v, "fr-ca") { DateLocale::fr_CA }
    else if eq_str(&v, "hr") { DateLocale::hr_HR }
    else if eq_str(&v, "hu") { DateLocale::hu_HU }
    else if eq_str(&v, "it") { DateLocale::it_IT }
    else if eq_str(&v, "nb") { DateLocale::nb_NO }
    else if eq_str(&v, "nl") { DateLocale::nl_NL }
    else if eq_str(&v, "pl") { DateLocale::pl_PL }
    else if eq_str(&v, "pt-br") { DateLocale::pt_BR }
    else if eq_str(&v, "pt-pt") { DateLocale::pt_PT }
    else if eq_str(&v, "ro") { DateLocale::ro_RO }
    else if eq_str(&v, "ru") { DateLocale::ru_RU }
    else if eq_str(&v, "sk") { DateLocale::sk_SK }
    else if eq_str(&v, "sv") { DateLocale::sv_SE }
    else if eq_str(&v, "tr") { DateLocale::tr_TR }
    else if eq_str(&v, "uk") { DateLocale::uk_UA }
    else { DateLocale::en_US }
}

/// The system's preferred locale tag, through `sys_locale::get_locale`; the result
/// depends on the environment and nothing is claimed of it.
#[verifier::external_body]
fn system_locale() -> (r: Option<String>) {
    sys_locale::get_locale()
}

/// Units and interface language for a locale tag, when there is one.
pub fn detect_from(tag: Option<&str>) -> (r: (Option<Units>, Option<&'static str>))
    ensures
        tag is None ==> r.0 is None && r.1 is None,
        tag matches Some(t) ==> r.0 == Some(spec_units_for_locale(t@)) && r.1 is Some && r.1->0@
            == spec_lang_for_locale(t@),
{
    match tag {
        None => (None, None),
        Some(t) => (Some(units_for_locale(t)), Some(lang_for_locale(t))),
    }
}

/// Units and interface language from the system locale; both are `None` when the
/// system reports no locale, and otherwise both come from the one tag it reports.
pub fn detect() -> (r: (Option<Units>, Option<&'static str>))
    ensures
        (r.0 is Some) == (r.1 is Some),
        r.0 is Some ==> exists|t: Seq<char>|
            r.0 == Some(#[trigger] spec_units_for_locale(t)) && r.1->0@ == spec_lang_for_locale(t),
{
    let tag = system_locale();
    match tag {
        None => detect_from(None),
        Some(t) => {
            let r = detect_from(Some(t.as_str()));
            assert(r.0 == Some(spec_units_for_locale(t@)));
            r
        },
    }
}

} // verus!
