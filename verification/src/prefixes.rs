//! Prefix handling: the standard prefix map, `PREFIX` injection for the
//! prefixes a query uses, and shrinking of full IRIs to prefixed names.
use vstd::prelude::*;
use vstd::utf8::encode_utf8;
use crate::map::{SortedMap, keys_ascending, lemma_pairs_map};
use crate::query::{expand_spec, kind_from, lemma_kind_skips_decl, query_kind_spec};
use crate::scan::{contains, contains_exec, find_exec, find_from, first_index, lemma_find_from, lemma_first_index, matches_at, matches_at_exec};
use crate::text::{append_chars, append_str, ascii_lower, chars_of, is_alnum, is_ascii_alnum, is_ascii_text, is_ws, lower, lower_chars, slice_of, string_of, upper, upper_chars};

verus! {

// ── the standard prefix set ────────────────────────────────────────────────

/// Zazuko's curated prefix set (https://github.com/zazuko/rdf-vocabularies):
/// prefix to namespace.
pub open spec fn standard_map() -> Map<Seq<char>, Seq<char>> {
    Map::<Seq<char>, Seq<char>>::empty()
        .insert("acl"@, "http://www.w3.org/ns/auth/acl#"@)
        .insert("as"@, "https://www.w3.org/ns/activitystreams#"@)
        .insert("b59"@, "https://barnard59.zazuko.com/vocab#"@)
        .insert("bibo"@, "http://purl.org/ontology/bibo/"@)
        .insert("cc"@, "http://creativecommons.org/ns#"@)
        .insert("cert"@, "http://www.w3.org/ns/auth/cert#"@)
        .insert("cnt"@, "http://www.w3.org/2011/content#"@)
        .insert("code"@, "https://code.described.at/"@)
        .insert("constant"@, "http://qudt.org/vocab/constant/"@)
        .insert("crm"@, "http://www.cidoc-crm.org/cidoc-crm/"@)
        .insert("csvw"@, "http://www.w3.org/ns/csvw#"@)
        .insert("ctag"@, "http://commontag.org/ns#"@)
        .insert("cube"@, "https://cube.link/"@)
        .insert("cur"@, "http://qudt.org/vocab/currency/"@)
        .insert("dash"@, "http://datashapes.org/dash#"@)
        .insert("dash-sparql"@, "http://datashapes.org/sparql#"@)
        .insert("dbo"@, "http://dbpedia.org/ontology/"@)
        .insert("dc11"@, "http://purl.org/dc/elements/1.1/"@)
        .insert("dcam"@, "http://purl.org/dc/dcam/"@)
        .insert("dcat"@, "http://www.w3.org/ns/dcat#"@)
        .insert("dcmitype"@, "http://purl.org/dc/dcmitype/"@)
        .insert("dcterms"@, "http://purl.org/dc/terms/"@)
        .insert("dig"@, "http://www.ics.forth.gr/isl/CRMdig/"@)
        .insert("discipline"@, "http://qudt.org/vocab/discipline/"@)
        .insert("doap"@, "http://usefulinc.com/ns/doap#"@)
        .insert("dprod"@, "https://ekgf.github.io/dprod/"@)
        .insert("dpv"@, "http://www.w3.org/ns/dpv#"@)
        .insert("dqv"@, "http://www.w3.org/ns/dqv#"@)
        .insert("dtype"@, "http://www.linkedmodel.org/schema/dtype#"@)
        .insert("duv"@, "http://www.w3.org/ns/duv#"@)
        .insert("earl"@, "http://www.w3.org/ns/earl#"@)
        .insert("ebucore"@, "http://www.ebu.ch/metadata/ontologies/ebucore/ebucore#"@)
        .insert("exif"@, "http://www.w3.org/2003/12/exif/ns#"@)
        .insert("foaf"@, "http://xmlns.com/foaf/0.1/"@)
        .insert("frbr"@, "http://purl.org/vocab/frbr/core#"@)
        .insert("geo"@, "http://www.opengis.net/ont/geosparql#"@)
        .insert("geof"@, "http://www.opengis.net/def/function/geosparql/"@)
        .insert("geor"@, "http://www.opengis.net/def/rule/geosparql/"@)
        .insert("gml"@, "http://www.opengis.net/ont/gml#"@)
        .insert("gn"@, "http://www.geonames.org/ontology#"@)
        .insert("gr"@, "http://purl.org/goodrelations/v1#"@)
        .insert("grddl"@, "http://www.w3.org/2003/g/data-view#"@)
        .insert("gs1"@, "https://gs1.org/voc/"@)
        .insert("gtfs"@, "http://vocab.gtfs.org/terms#"@)
        .insert("http"@, "http://www.w3.org/2011/http#"@)
        .insert("hydra"@, "http://www.w3.org/ns/hydra/core#"@)
        .insert("ical"@, "http://www.w3.org/2002/12/cal/icaltzd#"@)
        .insert("la"@, "https://linked.art/ns/terms/"@)
        .insert("ldp"@, "http://www.w3.org/ns/ldp#"@)
        .insert("list"@, "http://www.w3.org/2000/10/swap/list#"@)
        .insert("locn"@, "http://www.w3.org/ns/locn#"@)
        .insert("log"@, "http://www.w3.org/2000/10/swap/log#"@)
        .insert("lvont"@, "http://lexvo.org/ontology#"@)
        .insert("m4i"@, "http://w3id.org/nfdi4ing/metadata4ing#"@)
        .insert("ma"@, "http://www.w3.org/ns/ma-ont#"@)
        .insert("mads"@, "http://www.loc.gov/mads/rdf/v1#"@)
        .insert("math"@, "http://www.w3.org/2000/10/swap/math#"@)
        .insert("meta"@, "https://cube.link/meta/"@)
        .insert("oa"@, "http://www.w3.org/ns/oa#"@)
        .insert("og"@, "http://ogp.me/ns#"@)
        .insert("oidc"@, "http://www.w3.org/ns/solid/oidc#"@)
        .insert("org"@, "http://www.w3.org/ns/org#"@)
        .insert("owl"@, "http://www.w3.org/2002/07/owl#"@)
        .insert("pim"@, "http://www.w3.org/ns/pim/space#"@)
        .insert("pipeline"@, "https://pipeline.described.at/"@)
        .insert("prefix"@, "http://qudt.org/vocab/prefix/"@)
        .insert("prov"@, "http://www.w3.org/ns/prov#"@)
        .insert("qb"@, "http://purl.org/linked-data/cube#"@)
        .insert("qkdv"@, "http://qudt.org/vocab/dimensionvector/"@)
        .insert("quantitykind"@, "http://qudt.org/vocab/quantitykind/"@)
        .insert("qudt"@, "http://qudt.org/schema/qudt/"@)
        .insert("rdau"@, "http://rdaregistry.info/Elements/u/"@)
        .insert("rdf"@, "http://www.w3.org/1999/02/22-rdf-syntax-ns#"@)
        .insert("rdfa"@, "http://www.w3.org/ns/rdfa#"@)
        .insert("rdfs"@, "http://www.w3.org/2000/01/rdf-schema#"@)
        .insert("relation"@, "https://cube.link/relation/"@)
        .insert("rev"@, "http://purl.org/stuff/rev#"@)
        .insert("rico"@, "https://www.ica.org/standards/RiC/ontology#"@)
        .insert("rr"@, "http://www.w3.org/ns/r2rml#"@)
        .insert("rss"@, "http://purl.org/rss/1.0/"@)
        .insert("schema"@, "http://schema.org/"@)
        .insert("sd"@, "http://www.w3.org/ns/sparql-service-description#"@)
        .insert("sdmx"@, "http://purl.org/linked-data/sdmx#"@)
        .insert("sem"@, "http://semanticweb.cs.vu.nl/2009/11/sem/"@)
        .insert("set"@, "http://www.w3.org/2000/10/swap/set#"@)
        .insert("sf"@, "http://www.opengis.net/ont/sf#"@)
        .insert("sh"@, "http://www.w3.org/ns/shacl#"@)
        .insert("shex"@, "http://www.w3.org/ns/shex#"@)
        .insert("shsh"@, "http://www.w3.org/ns/shacl-shacl#"@)
        .insert("sioc"@, "http://rdfs.org/sioc/ns#"@)
        .insert("skos"@, "http://www.w3.org/2004/02/skos/core#"@)
        .insert("solid"@, "http://www.w3.org/ns/solid/terms#"@)
        .insert("sosa"@, "http://www.w3.org/ns/sosa/"@)
        .insert("sou"@, "http://qudt.org/vocab/sou/"@)
        .insert("ssn"@, "http://www.w3.org/ns/ssn/"@)
        .insert("stat"@, "http://www.w3.org/ns/posix/stat#"@)
        .insert("string"@, "http://www.w3.org/2000/10/swap/string#"@)
        .insert("test"@, "http://www.w3.org/2006/03/test-description#"@)
        .insert("time"@, "http://www.w3.org/2006/time#"@)
        .insert("unit"@, "http://qudt.org/vocab/unit/"@)
        .insert("vaem"@, "http://www.linkedmodel.org/schema/vaem#"@)
        .insert("vann"@, "http://purl.org/vocab/vann/"@)
        .insert("vcard"@, "http://www.w3.org/2006/vcard/ns#"@)
        .insert("void"@, "http://rdfs.org/ns/void#"@)
        .insert("vs"@, "http://www.w3.org/2003/06/sw-vocab-status/ns#"@)
        .insert("vso"@, "http://purl.org/vso/ns#"@)
        .insert("wdrs"@, "http://www.w3.org/2007/05/powder-s#"@)
        .insert("wgs"@, "http://www.w3.org/2003/01/geo/wgs84_pos#"@)
        .insert("xkos"@, "http://rdf-vocabulary.ddialliance.org/xkos#"@)
        .insert("xsd"@, "http://www.w3.org/2001/XMLSchema#"@)
}

/// Base prefix map: the standard set as an owned map, ready to be extended
/// with config-provided prefixes.
pub fn base_map() -> (m: SortedMap<String>)
    ensures
        m@ == standard_map(),
{
    let mut m: SortedMap<String> = SortedMap::new();
    m.insert("acl".to_owned(), "http://www.w3.org/ns/auth/acl#".to_owned());
    m.insert("as".to_owned(), "https://www.w3.org/ns/activitystreams#".to_owned());
    m.insert("b59".to_owned(), "https://barnard59.zazuko.com/vocab#".to_owned());
    m.insert("bibo".to_owned(), "http://purl.org/ontology/bibo/".to_owned());
    m.insert("cc".to_owned(), "http://creativecommons.org/ns#".to_owned());
    m.insert("cert".to_owned(), "http://www.w3.org/ns/auth/cert#".to_owned());
    m.insert("cnt".to_owned(), "http://www.w3.org/2011/content#".to_owned());
    m.insert("code".to_owned(), "https://code.described.at/".to_owned());
    m.insert("constant".to_owned(), "http://qudt.org/vocab/constant/".to_owned());
    m.insert("crm".to_owned(), "http://www.cidoc-crm.org/cidoc-crm/".to_owned());
    m.insert("csvw".to_owned(), "http://www.w3.org/ns/csvw#".to_owned());
    m.insert("ctag".to_owned(), "http://commontag.org/ns#".to_owned());
    m.insert("cube".to_owned(), "https://cube.link/".to_owned());
    m.insert("cur".to_owned(), "http://qudt.org/vocab/currency/".to_owned());
    m.insert("dash".to_owned(), "http://datashapes.org/dash#".to_owned());
    m.insert("dash-sparql".to_owned(), "http://datashapes.org/sparql#".to_owned());
    m.insert("dbo".to_owned(), "http://dbpedia.org/ontology/".to_owned());
    m.insert("dc11".to_owned(), "http://purl.org/dc/elements/1.1/".to_owned());
    m.insert("dcam".to_owned(), "http://purl.org/dc/dcam/".to_owned());
    m.insert("dcat".to_owned(), "http://www.w3.org/ns/dcat#".to_owned());
    m.insert("dcmitype".to_owned(), "http://purl.org/dc/dcmitype/".to_owned());
    m.insert("dcterms".to_owned(), "http://purl.org/dc/terms/".to_owned());
    m.insert("dig".to_owned(), "http://www.ics.forth.gr/isl/CRMdig/".to_owned());
    m.insert("discipline".to_owned(), "http://qudt.org/vocab/discipline/".to_owned());
    m.insert("doap".to_owned(), "http://usefulinc.com/ns/doap#".to_owned());
    m.insert("dprod".to_owned(), "https://ekgf.github.io/dprod/".to_owned());
    m.insert("dpv".to_owned(), "http://www.w3.org/ns/dpv#".to_owned());
    m.insert("dqv".to_owned(), "http://www.w3.org/ns/dqv#".to_owned());
    m.insert("dtype".to_owned(), "http://www.linkedmodel.org/schema/dtype#".to_owned());
    m.insert("duv".to_owned(), "http://www.w3.org/ns/duv#".to_owned());
    m.insert("earl".to_owned(), "http://www.w3.org/ns/earl#".to_owned());
    m.insert("ebucore".to_owned(), "http://www.ebu.ch/metadata/ontologies/ebucore/ebucore#".to_owned());
    m.insert("exif".to_owned(), "http://www.w3.org/2003/12/exif/ns#".to_owned());
    m.insert("foaf".to_owned(), "http://xmlns.com/foaf/0.1/".to_owned());
    m.insert("frbr".to_owned(), "http://purl.org/vocab/frbr/core#".to_owned());
    m.insert("geo".to_owned(), "http://www.opengis.net/ont/geosparql#".to_owned());
    m.insert("geof".to_owned(), "http://www.opengis.net/def/function/geosparql/".to_owned());
    m.insert("geor".to_owned(), "http://www.opengis.net/def/rule/geosparql/".to_owned());
    m.insert("gml".to_owned(), "http://www.opengis.net/ont/gml#".to_owned());
    m.insert("gn".to_owned(), "http://www.geonames.org/ontology#".to_owned());
    m.insert("gr".to_owned(), "http://purl.org/goodrelations/v1#".to_owned());
    m.insert("grddl".to_owned(), "http://www.w3.org/2003/g/data-view#".to_owned());
    m.insert("gs1".to_owned(), "https://gs1.org/voc/".to_owned());
    m.insert("gtfs".to_owned(), "http://vocab.gtfs.org/terms#".to_owned());
    m.insert("http".to_owned(), "http://www.w3.org/2011/http#".to_owned());
    m.insert("hydra".to_owned(), "http://www.w3.org/ns/hydra/core#".to_owned());
    m.insert("ical".to_owned(), "http://www.w3.org/2002/12/cal/icaltzd#".to_owned());
    m.insert("la".to_owned(), "https://linked.art/ns/terms/".to_owned());
    m.insert("ldp".to_owned(), "http://www.w3.org/ns/ldp#".to_owned());
    m.insert("list".to_owned(), "http://www.w3.org/2000/10/swap/list#".to_owned());
    m.insert("locn".to_owned(), "http://www.w3.org/ns/locn#".to_owned());
    m.insert("log".to_owned(), "http://www.w3.org/2000/10/swap/log#".to_owned());
    m.insert("lvont".to_owned(), "http://lexvo.org/ontology#".to_owned());
    m.insert("m4i".to_owned(), "http://w3id.org/nfdi4ing/metadata4ing#".to_owned());
    m.insert("ma".to_owned(), "http://www.w3.org/ns/ma-ont#".to_owned());
    m.insert("mads".to_owned(), "http://www.loc.gov/mads/rdf/v1#".to_owned());
    m.insert("math".to_owned(), "http://www.w3.org/2000/10/swap/math#".to_owned());
    m.insert("meta".to_owned(), "https://cube.link/meta/".to_owned());
    m.insert("oa".to_owned(), "http://www.w3.org/ns/oa#".to_owned());
    m.insert("og".to_owned(), "http://ogp.me/ns#".to_owned());
    m.insert("oidc".to_owned(), "http://www.w3.org/ns/solid/oidc#".to_owned());
    m.insert("org".to_owned(), "http://www.w3.org/ns/org#".to_owned());
    m.insert("owl".to_owned(), "http://www.w3.org/2002/07/owl#".to_owned());
    m.insert("pim".to_owned(), "http://www.w3.org/ns/pim/space#".to_owned());
    m.insert("pipeline".to_owned(), "https://pipeline.described.at/".to_owned());
    m.insert("prefix".to_owned(), "http://qudt.org/vocab/prefix/".to_owned());
    m.insert("prov".to_owned(), "http://www.w3.org/ns/prov#".to_owned());
    m.insert("qb".to_owned(), "http://purl.org/linked-data/cube#".to_owned());
    m.insert("qkdv".to_owned(), "http://qudt.org/vocab/dimensionvector/".to_owned());
    m.insert("quantitykind".to_owned(), "http://qudt.org/vocab/quantitykind/".to_owned());
    m.insert("qudt".to_owned(), "http://qudt.org/schema/qudt/".to_owned());
    m.insert("rdau".to_owned(), "http://rdaregistry.info/Elements/u/".to_owned());
    m.insert("rdf".to_owned(), "http://www.w3.org/1999/02/22-rdf-syntax-ns#".to_owned());
    m.insert("rdfa".to_owned(), "http://www.w3.org/ns/rdfa#".to_owned());
    m.insert("rdfs".to_owned(), "http://www.w3.org/2000/01/rdf-schema#".to_owned());
    m.insert("relation".to_owned(), "https://cube.link/relation/".to_owned());
    m.insert("rev".to_owned(), "http://purl.org/stuff/rev#".to_owned());
    m.insert("rico".to_owned(), "https://www.ica.org/standards/RiC/ontology#".to_owned());
    m.insert("rr".to_owned(), "http://www.w3.org/ns/r2rml#".to_owned());
    m.insert("rss".to_owned(), "http://purl.org/rss/1.0/".to_owned());
    m.insert("schema".to_owned(), "http://schema.org/".to_owned());
    m.insert("sd".to_owned(), "http://www.w3.org/ns/sparql-service-description#".to_owned());
    m.insert("sdmx".to_owned(), "http://purl.org/linked-data/sdmx#".to_owned());
    m.insert("sem".to_owned(), "http://semanticweb.cs.vu.nl/2009/11/sem/".to_owned());
    m.insert("set".to_owned(), "http://www.w3.org/2000/10/swap/set#".to_owned());
    m.insert("sf".to_owned(), "http://www.opengis.net/ont/sf#".to_owned());
    m.insert("sh".to_owned(), "http://www.w3.org/ns/shacl#".to_owned());
    m.insert("shex".to_owned(), "http://www.w3.org/ns/shex#".to_owned());
    m.insert("shsh".to_owned(), "http://www.w3.org/ns/shacl-shacl#".to_owned());
    m.insert("sioc".to_owned(), "http://rdfs.org/sioc/ns#".to_owned());
    m.insert("skos".to_owned(), "http://www.w3.org/2004/02/skos/core#".to_owned());
    m.insert("solid".to_owned(), "http://www.w3.org/ns/solid/terms#".to_owned());
    m.insert("sosa".to_owned(), "http://www.w3.org/ns/sosa/".to_owned());
    m.insert("sou".to_owned(), "http://qudt.org/vocab/sou/".to_owned());
    m.insert("ssn".to_owned(), "http://www.w3.org/ns/ssn/".to_owned());
    m.insert("stat".to_owned(), "http://www.w3.org/ns/posix/stat#".to_owned());
    m.insert("string".to_owned(), "http://www.w3.org/2000/10/swap/string#".to_owned());
    m.insert("test".to_owned(), "http://www.w3.org/2006/03/test-description#".to_owned());
    m.insert("time".to_owned(), "http://www.w3.org/2006/time#".to_owned());
    m.insert("unit".to_owned(), "http://qudt.org/vocab/unit/".to_owned());
    m.insert("vaem".to_owned(), "http://www.linkedmodel.org/schema/vaem#".to_owned());
    m.insert("vann".to_owned(), "http://purl.org/vocab/vann/".to_owned());
    m.insert("vcard".to_owned(), "http://www.w3.org/2006/vcard/ns#".to_owned());
    m.insert("void".to_owned(), "http://rdfs.org/ns/void#".to_owned());
    m.insert("vs".to_owned(), "http://www.w3.org/2003/06/sw-vocab-status/ns#".to_owned());
    m.insert("vso".to_owned(), "http://purl.org/vso/ns#".to_owned());
    m.insert("wdrs".to_owned(), "http://www.w3.org/2007/05/powder-s#".to_owned());
    m.insert("wgs".to_owned(), "http://www.w3.org/2003/01/geo/wgs84_pos#".to_owned());
    m.insert("xkos".to_owned(), "http://rdf-vocabulary.ddialliance.org/xkos#".to_owned());
    m.insert("xsd".to_owned(), "http://www.w3.org/2001/XMLSchema#".to_owned());
    m
}

// ── injection ──────────────────────────────────────────────────────────────

/// The character before index `abs` of `q` (if any) may start a prefixed
/// name: it is not an ASCII letter or digit, nor one of `_ - < / :`.
pub open spec fn boundary_ok(q: Seq<char>, abs: int) -> bool {
    abs == 0 || {
        let c = q[abs - 1];
        !(is_alnum(c) || c == '_' || c == '-' || c == '<' || c == '/' || c == ':')
    }
}

/// Scanning `q` from `from` for `needle`: the first occurrence found whose
/// preceding character is a boundary decides; a rejected occurrence makes the
/// scan resume right after it.
pub open spec fn uses_from(q: Seq<char>, needle: Seq<char>, from: int) -> bool
    decreases q.len() + 1 - from,
{
    if needle.len() == 0 || from < 0 {
        false
    } else {
        match find_from(q, needle, from) {
            None => false,
            Some(abs) => if boundary_ok(q, abs) {
                true
            } else {
                proof {
                    lemma_find_from(q, needle, from);
                }
                uses_from(q, needle, abs + needle.len())
            },
        }
    }
}

/// `q` uses the prefix `p`: `p:` occurs at a boundary, as the scan finds it.
pub open spec fn uses_prefix_spec(q: Seq<char>, p: Seq<char>) -> bool {
    uses_from(q, p.push(':'), 0)
}

/// `q` already declares `p`: its lower-case form contains `prefix p:` with
/// `p` lower-cased.
pub open spec fn already_declared_spec(q: Seq<char>, p: Seq<char>) -> bool {
    contains(lower(q), "prefix "@ + lower(p) + ":"@)
}

/// The declaration line for prefix `p` and namespace `ns`.
pub open spec fn decl(p: Seq<char>, ns: Seq<char>) -> Seq<char> {
    "PREFIX "@ + p + ": <"@ + ns + ">\n"@
}

/// The declarations that `inject` prepends: one line per entry of `ps`, in
/// order, for each prefix that `q` uses and does not declare.
pub open spec fn header_for(q: Seq<char>, ps: Seq<(String, String)>) -> Seq<char>
    decreases ps.len(),
{
    if ps.len() == 0 {
        seq![]
    } else {
        let prev = header_for(q, ps.drop_last());
        let p = ps.last().0@;
        let ns = ps.last().1@;
        if uses_prefix_spec(q, p) && !already_declared_spec(q, p) {
            prev + decl(p, ns)
        } else {
            prev
        }
    }
}

/// No prefix and no namespace holds a `>` or a newline, so each declaration
/// is one line that ends at the `>` closing its namespace.
pub open spec fn one_line_decls(ps: Seq<(String, String)>) -> bool {
    forall|i: int|
        0 <= i < ps.len() ==> !(#[trigger] ps[i]).0@.contains('>') && !ps[i].1@.contains('>')
            && !ps[i].0@.contains('\n') && !ps[i].1@.contains('\n')
}

/// A declaration line starts with `PREFIX `, its only `>` after that word is
/// the one before its final newline, which is its only newline.
proof fn lemma_decl_line(p: Seq<char>, ns: Seq<char>)
    requires
        !p.contains('>'),
        !ns.contains('>'),
        !p.contains('\n'),
        !ns.contains('\n'),
    ensures
        ({
            let d = decl(p, ns);
            &&& d.len() >= 8
            &&& d.subrange(0, 7) == "PREFIX "@
            &&& d[d.len() - 2] == '>'
            &&& d[d.len() - 1] == '\n'
            &&& forall|i: int| 6 <= i < d.len() - 2 ==> #[trigger] d[i] != '>' && d[i] != '\n'
        }),
{
    reveal_strlit("PREFIX ");
    reveal_strlit(": <");
    reveal_strlit(">\n");
    let d = decl(p, ns);
    let a = "PREFIX "@ + p;
    let b = a + ": <"@;
    let c = b + ns;
    assert(d == c + ">\n"@);
    assert(d.subrange(0, 7) =~= "PREFIX "@);
    assert forall|i: int| 6 <= i < d.len() - 2 implies #[trigger] d[i] != '>' && d[i] != '\n' by {
        if i < 7 {
            assert(d[i] == "PREFIX "@[i]);
        } else if i < a.len() {
            assert(d[i] == p[i - 7]);
        } else if i < b.len() {
            assert(d[i] == ": <"@[i - a.len()]);
        } else {
            assert(d[i] == ns[i - b.len()]);
        }
    }
}

/// The declarations that `inject` puts in front never change how the text
/// after them is classified.
proof fn lemma_header_kind(q: Seq<char>, ps: Seq<(String, String)>, rest: Seq<char>)
    requires
        one_line_decls(ps),
        upper("PREFIX"@) == "PREFIX"@,
    ensures
        kind_from(header_for(q, ps) + rest, 0) == kind_from(rest, 0),
    decreases ps.len(),
{
    if ps.len() == 0 {
        assert(header_for(q, ps) + rest =~= rest);
    } else {
        let pre = ps.drop_last();
        assert(one_line_decls(pre)) by {
            assert forall|i: int| 0 <= i < pre.len() implies !(#[trigger] pre[i]).0@.contains('>')
                && !pre[i].1@.contains('>') && !pre[i].0@.contains('\n') && !pre[i].1@.contains('\n') by {
                assert(pre[i] == ps[i]);
            }
        }
        let p = ps.last().0@;
        let ns = ps.last().1@;
        if uses_prefix_spec(q, p) && !already_declared_spec(q, p) {
            let d = decl(p, ns);
            assert(ps.last() == ps[ps.len() - 1]);
            lemma_decl_line(p, ns);
            lemma_header_kind(q, pre, d + rest);
            assert(header_for(q, ps) + rest =~= header_for(q, pre) + (d + rest));
            lemma_kind_skips_decl(d, rest);
        } else {
            lemma_header_kind(q, pre, rest);
        }
    }
}

/// Two occurrences of `p:` with `p` free of `:` never overlap.
proof fn lemma_needle_no_overlap(q: Seq<char>, p: Seq<char>, a: int, b: int)
    requires
        !p.contains(':'),
        matches_at(q, p.push(':'), a),
        matches_at(q, p.push(':'), b),
        a < b,
    ensures
        a + p.len() + 1 <= b,
{
    let n = p.push(':');
    if b < a + n.len() {
        let k = a + n.len() - 1 - b;
        assert(q.subrange(a, a + n.len())[n.len() - 1] == n[n.len() - 1]);
        assert(q[a + n.len() - 1] == ':');
        assert(q.subrange(b, b + n.len())[k] == n[k]);
        assert(n[k] == p[k]);
        assert(p.contains(':'));
    }
}

/// The scan from `from` finds an occurrence of `p:` at `i` when the
/// character before it may start a prefixed name.
proof fn lemma_uses_from_finds(q: Seq<char>, p: Seq<char>, from: int, i: int)
    requires
        !p.contains(':'),
        0 <= from <= i,
        matches_at(q, p.push(':'), i),
        boundary_ok(q, i),
    ensures
        uses_from(q, p.push(':'), from),
    decreases q.len() + 1 - from,
{
    let n = p.push(':');
    lemma_find_from(q, n, from);
    match find_from(q, n, from) {
        Some(abs) => {
            if !boundary_ok(q, abs) {
                assert(abs != i);
                assert(abs < i);
                lemma_needle_no_overlap(q, p, abs, i);
                lemma_uses_from_finds(q, p, abs + n.len(), i);
            }
        },
        None => {},
    }
}

/// A prefix of the map (free of `:`) that the query writes as `p:` right
/// after a character that is not an ASCII letter or digit nor one of
/// `_ - < / :` (or at the very start), and that the query does not already
/// declare, gets its declaration line in the header.
pub proof fn lemma_header_declares_used(q: Seq<char>, ps: Seq<(String, String)>, j: int, i: int)
    requires
        0 <= j < ps.len(),
        !ps[j].0@.contains(':'),
        matches_at(q, ps[j].0@ + ":"@, i),
        i == 0 || !(('0' <= q[i - 1] && q[i - 1] <= '9') || ('a' <= q[i - 1] && q[i - 1] <= 'z') || (
        'A' <= q[i - 1] && q[i - 1] <= 'Z') || q[i - 1] == '_' || q[i - 1] == '-' || q[i - 1] == '<'
            || q[i - 1] == '/' || q[i - 1] == ':'),
        !already_declared_spec(q, ps[j].0@),
    ensures
        contains(header_for(q, ps), "PREFIX "@ + ps[j].0@ + ": <"@ + ps[j].1@ + ">\n"@),
{
    reveal_strlit(":");
    let p = ps[j].0@;
    assert(p + ":"@ =~= p.push(':'));
    lemma_uses_from_finds(q, p, 0, i);
    lemma_header_holds_decl(q, ps, j);
}

// ── injecting twice ────────────────────────────────────────────────────────

/// `s` lower-cased letter by letter in ASCII.
pub open spec fn ascii_lowered(s: Seq<char>) -> Seq<char> {
    s.map_values(|c: char| ascii_lower(c))
}

/// Text in front keeps an occurrence.
proof fn lemma_contains_after(a: Seq<char>, b: Seq<char>, n: Seq<char>)
    requires
        contains(b, n),
    ensures
        contains(a + b, n),
{
    let i = choose|i: int| matches_at(b, n, i);
    assert((a + b).subrange(a.len() + i, a.len() + i + n.len()) =~= b.subrange(i, i + n.len()));
    assert(matches_at(a + b, n, a.len() + i));
}

/// Text behind keeps an occurrence.
proof fn lemma_contains_before(a: Seq<char>, b: Seq<char>, n: Seq<char>)
    requires
        contains(a, n),
    ensures
        contains(a + b, n),
{
    let i = choose|i: int| matches_at(a, n, i);
    assert((a + b).subrange(i, i + n.len()) =~= a.subrange(i, i + n.len()));
    assert(matches_at(a + b, n, i));
}

/// Lower-casing letter by letter keeps an occurrence.
proof fn lemma_contains_lowered(s: Seq<char>, n: Seq<char>)
    requires
        contains(s, n),
    ensures
        contains(ascii_lowered(s), ascii_lowered(n)),
{
    let i = choose|i: int| matches_at(s, n, i);
    assert(ascii_lowered(s).subrange(i, i + n.len()) =~= ascii_lowered(s.subrange(i, i + n.len())));
    assert(matches_at(ascii_lowered(s), ascii_lowered(n), i));
}

/// The header holds the declaration of every prefix it declares.
proof fn lemma_header_holds_decl(q: Seq<char>, ps: Seq<(String, String)>, j: int)
    requires
        0 <= j < ps.len(),
        uses_prefix_spec(q, ps[j].0@),
        !already_declared_spec(q, ps[j].0@),
    ensures
        contains(header_for(q, ps), decl(ps[j].0@, ps[j].1@)),
    decreases ps.len(),
{
    let pre = ps.drop_last();
    let p = ps.last().0@;
    let ns = ps.last().1@;
    assert(ps.last() == ps[ps.len() - 1]);
    if j < ps.len() - 1 {
        assert(pre[j] == ps[j]);
        lemma_header_holds_decl(q, pre, j);
        if uses_prefix_spec(q, p) && !already_declared_spec(q, p) {
            lemma_contains_before(header_for(q, pre), decl(p, ns), decl(ps[j].0@, ps[j].1@));
        }
    } else {
        let d = decl(p, ns);
        assert(header_for(q, ps).subrange(header_for(q, pre).len() as int, header_for(q, ps).len() as int)
            =~= d);
        assert(matches_at(header_for(q, ps), d, header_for(q, pre).len() as int));
    }
}

/// A declaration lower-cased letter by letter holds `prefix p:` with `p`
/// lower-cased.
proof fn lemma_lowered_decl(p: Seq<char>, ns: Seq<char>)
    ensures
        contains(ascii_lowered(decl(p, ns)), "prefix "@ + ascii_lowered(p) + ":"@),
{
    reveal_strlit("PREFIX ");
    reveal_strlit("prefix ");
    reveal_strlit(": <");
    reveal_strlit(":");
    reveal_strlit(">\n");
    let d = decl(p, ns);
    let pat = "prefix "@ + ascii_lowered(p) + ":"@;
    let l = ascii_lowered(d);
    assert(d =~= "PREFIX "@ + p + ": <"@ + ns + ">\n"@);
    assert forall|i: int| 0 <= i < pat.len() implies l.subrange(0, pat.len() as int)[i] == pat[i] by {
        if i < 7 {
            assert(d[i] == "PREFIX "@[i]);
            assert(pat[i] == "prefix "@[i]);
        } else if i < 7 + p.len() {
            assert(d[i] == p[i - 7]);
            assert(pat[i] == ascii_lowered(p)[i - 7]);
        } else {
            assert(d[i] == ':');
            assert(pat[i] == ':');
        }
    }
    assert(l.subrange(0, pat.len() as int) =~= pat);
    assert(matches_at(l, pat, 0));
}

/// A header declares nothing when every entry is unused or declared.
proof fn lemma_header_empty(t: Seq<char>, ps: Seq<(String, String)>)
    requires
        forall|j: int|
            0 <= j < ps.len() ==> !(uses_prefix_spec(t, (#[trigger] ps[j]).0@)
                && !already_declared_spec(t, ps[j].0@)),
    ensures
        header_for(t, ps) == Seq::<char>::empty(),
    decreases ps.len(),
{
    if ps.len() > 0 {
        let pre = ps.drop_last();
        assert forall|j: int|
            0 <= j < pre.len() implies !(uses_prefix_spec(t, (#[trigger] pre[j]).0@)
            && !already_declared_spec(t, pre[j].0@)) by {
            assert(pre[j] == ps[j]);
        }
        lemma_header_empty(t, pre);
        assert(ps.last() == ps[ps.len() - 1]);
    }
}

/// Injecting a second time declares nothing more (so `inject` of what
/// `inject` gave is that text again), when the declarations added the first
/// time make no new use of a prefix of the map. Case folding is a named
/// result here, so the law takes as given what `str::to_lowercase` does on
/// such text: the added declarations, all ASCII lines, fold letter by letter
/// and the query folds as on its own; and each prefix folds letter by letter.
pub proof fn lemma_inject_idempotent(q: Seq<char>, ps: Seq<(String, String)>)
    requires
        forall|j: int|
            0 <= j < ps.len() && #[trigger] uses_prefix_spec(header_for(q, ps) + q, ps[j].0@)
                ==> uses_prefix_spec(q, ps[j].0@),
        lower(header_for(q, ps) + q) == ascii_lowered(header_for(q, ps)) + lower(q),
        forall|j: int| 0 <= j < ps.len() ==> lower((#[trigger] ps[j]).0@) == ascii_lowered(ps[j].0@),
    ensures
        header_for(header_for(q, ps) + q, ps) == Seq::<char>::empty(),
{
    let h = header_for(q, ps);
    let t = h + q;
    assert forall|j: int|
        0 <= j < ps.len() implies !(uses_prefix_spec(t, (#[trigger] ps[j]).0@)
        && !already_declared_spec(t, ps[j].0@)) by {
        let p = ps[j].0@;
        let ns = ps[j].1@;
        let pat = "prefix "@ + lower(p) + ":"@;
        if uses_prefix_spec(t, p) {
            assert(uses_prefix_spec(q, p));
            if already_declared_spec(q, p) {
                lemma_contains_after(ascii_lowered(h), lower(q), pat);
            } else {
                let n = ascii_lowered(decl(p, ns));
                lemma_header_holds_decl(q, ps, j);
                lemma_contains_lowered(h, decl(p, ns));
                lemma_lowered_decl(p, ns);
                let i = choose|i: int| matches_at(n, pat, i);
                let k = choose|k: int| matches_at(ascii_lowered(h), n, k);
                assert(ascii_lowered(h).subrange(k + i, k + i + pat.len()) =~= n.subrange(
                    i,
                    i + pat.len(),
                ));
                assert(matches_at(ascii_lowered(h), pat, k + i));
                lemma_contains_before(ascii_lowered(h), lower(q), pat);
            }
        }
    }
    lemma_header_empty(t, ps);
}

/// Whether `q` uses the prefix `p`.
fn uses_prefix(q: &Vec<char>, p: &Vec<char>) -> (r: bool)
    ensures
        r == uses_prefix_spec(q@, p@),
{
    let mut needle = p.clone();
    assert(needle@ =~= p@);
    needle.push(':');
    let mut from: usize = 0;
    while from <= q.len()
        invariant
            needle@ == p@.push(':'),
            uses_prefix_spec(q@, p@) == uses_from(q@, needle@, from as int),
        decreases q.len() + 1 - from,
    {
        match find_exec(q, &needle, from) {
            None => {
                return false;
            },
            Some(abs) => {
                proof {
                    lemma_find_from(q@, needle@, from as int);
                }
                let ok_before = abs == 0 || {
                    let c = q[abs - 1];
                    !(is_ascii_alnum(c) || c == '_' || c == '-' || c == '<' || c == '/' || c == ':')
                };
                if ok_before {
                    return true;
                }
                from = abs + needle.len();
            },
        }
    }
    proof {
        assert(find_from(q@, needle@, from as int) is None);
    }
    false
}

/// Whether `q` already declares the prefix `p` (case-insensitively).
fn already_declared(q: &Vec<char>, p: &Vec<char>) -> (r: bool)
    ensures
        r == already_declared_spec(q@, p@),
{
    let lq = lower_chars(q);
    let mut pat = chars_of("prefix ");
    let lp = lower_chars(p);
    append_chars(&mut pat, &lp);
    append_str(&mut pat, ":");
    contains_exec(&lq, &pat)
}

/// Prepend `PREFIX` declarations for every known prefix the query actually
/// uses and hasn't already declared, in ascending prefix order.
pub fn inject(query: &str, map: &SortedMap<String>) -> (r: String)
    ensures
        r@ == header_for(query@, map.pairs()) + query@,
        one_line_decls(map.pairs()) ==> query_kind_spec(r@) == query_kind_spec(query@),
        r@.len() >= query@.len(),
        r@.skip(r@.len() - query@.len()) == query@,
        forall|j: int, i: int|
            #![trigger map.pairs()[j], matches_at(query@, map.pairs()[j].0@ + ":"@, i)]
            0 <= j < map.pairs().len() && !map.pairs()[j].0@.contains(':') && matches_at(
                query@,
                map.pairs()[j].0@ + ":"@,
                i,
            ) && (i == 0 || !(('0' <= query@[i - 1] && query@[i - 1] <= '9') || ('a' <= query@[i - 1]
                && query@[i - 1] <= 'z') || ('A' <= query@[i - 1] && query@[i - 1] <= 'Z') || query@[i
                - 1] == '_' || query@[i - 1] == '-' || query@[i - 1] == '<' || query@[i - 1] == '/'
                || query@[i - 1] == ':')) && !already_declared_spec(query@, map.pairs()[j].0@)
                ==> contains(
                r@.take(r@.len() - query@.len()),
                "PREFIX "@ + map.pairs()[j].0@ + ": <"@ + map.pairs()[j].1@ + ">\n"@,
            ),
{
    // Upper-casing keeps the keyword `PREFIX` as it is.
    let keyword = chars_of("PREFIX");
    let upper_keyword = upper_chars(&keyword);
    proof {
        reveal_strlit("PREFIX");
        assert(is_ascii_text(keyword@));
        assert(upper_keyword@ =~= "PREFIX"@);
    }
    let q = chars_of(query);
    let es = map.entries();
    let mut header: Vec<char> = Vec::new();
    let mut i: usize = 0;
    while i < es.len()
        invariant
            q@ == query@,
            es@ == map.pairs(),
            i <= es@.len(),
            header@ == header_for(query@, map.pairs().take(i as int)),
        decreases es.len() - i,
    {
        let p = chars_of(es[i].0.as_str());
        assert(map.pairs().take(i + 1).drop_last() =~= map.pairs().take(i as int));
        if uses_prefix(&q, &p) && !already_declared(&q, &p) {
            append_str(&mut header, "PREFIX ");
            append_chars(&mut header, &p);
            append_str(&mut header, ": <");
            append_str(&mut header, es[i].1.as_str());
            append_str(&mut header, ">\n");
            assert(header@ =~= header_for(query@, map.pairs().take(i as int)) + decl(p@, es@[i as int].1@));
        }
        i += 1;
    }
    assert(map.pairs().take(es.len() as int) =~= map.pairs());
    proof {
        if one_line_decls(map.pairs()) {
            lemma_header_kind(query@, map.pairs(), query@);
        }
    }
    let ghost h = header@;
    assert forall|j: int, i: int|
        #![trigger map.pairs()[j], matches_at(query@, map.pairs()[j].0@ + ":"@, i)]
        0 <= j < map.pairs().len() && !map.pairs()[j].0@.contains(':') && matches_at(
            query@,
            map.pairs()[j].0@ + ":"@,
            i,
        ) && (i == 0 || !(('0' <= query@[i - 1] && query@[i - 1] <= '9') || ('a' <= query@[i - 1]
            && query@[i - 1] <= 'z') || ('A' <= query@[i - 1] && query@[i - 1] <= 'Z') || query@[i
            - 1] == '_' || query@[i - 1] == '-' || query@[i - 1] == '<' || query@[i - 1] == '/'
            || query@[i - 1] == ':')) && !already_declared_spec(query@, map.pairs()[j].0@) implies contains(
        h,
        "PREFIX "@ + map.pairs()[j].0@ + ": <"@ + map.pairs()[j].1@ + ">\n"@,
    ) by {
        lemma_header_declares_used(query@, map.pairs(), j, i);
    }
    append_chars(&mut header, &q);
    assert(header@.take(header@.len() - query@.len()) =~= h);
    assert(header@.skip(header@.len() - query@.len()) =~= query@);
    string_of(&header)
}

// ── shrinking ──────────────────────────────────────────────────────────────

/// A valid local part of a prefixed name here: it starts with an ASCII letter,
/// digit or `_`, holds only ASCII letters, digits, `_`, `-` and `.`, and does
/// not end with `.`.
pub open spec fn pn_local(s: Seq<char>) -> bool {
    &&& s.len() > 0
    &&& (is_alnum(s[0]) || s[0] == '_')
    &&& s[s.len() - 1] != '.'
    &&& forall|i: int|
        0 <= i < s.len() ==> (is_alnum(#[trigger] s[i]) || s[i] == '_' || s[i] == '-' || s[i]
            == '.')
}

/// Whether `s` is a valid local part of a prefixed name.
fn is_pn_local(s: &Vec<char>) -> (r: bool)
    ensures
        r == pn_local(s@),
{
    if s.len() == 0 {
        return false;
    }
    if !(is_ascii_alnum(s[0]) || s[0] == '_') {
        return false;
    }
    if s[s.len() - 1] == '.' {
        return false;
    }
    let mut i: usize = 0;
    while i < s.len()
        invariant
            i <= s.len(),
            forall|k: int|
                0 <= k < i ==> (is_alnum(#[trigger] s@[k]) || s@[k] == '_' || s@[k] == '-'
                    || s@[k] == '.'),
        decreases s.len() - i,
    {
        let c = s[i];
        if !(is_ascii_alnum(c) || c == '_' || c == '-' || c == '.') {
            return false;
        }
        i += 1;
    }
    true
}

/// The views of (namespace, prefix) pairs.
pub open spec fn pair_views(ps: Seq<(String, String)>) -> Seq<(Seq<char>, Seq<char>)> {
    ps.map_values(|e: (String, String)| (e.0@, e.1@))
}

/// `ns` starts `iri` and leaves a valid local part.
pub open spec fn fits(iri: Seq<char>, ns: Seq<char>) -> bool {
    matches_at(iri, ns, 0) && pn_local(iri.skip(ns.len() as int))
}

/// The first index at or after `i` whose namespace fits `iri`.
pub open spec fn first_fit(iri: Seq<char>, rev: Seq<(Seq<char>, Seq<char>)>, i: int) -> Option<int>
    decreases rev.len() - i,
{
    if i < 0 || i >= rev.len() {
        None
    } else if fits(iri, rev[i].0) {
        Some(i)
    } else {
        first_fit(iri, rev, i + 1)
    }
}

/// `iri` shrunk with the (namespace, prefix) pairs `rev`: the first pair
/// whose namespace fits gives `prefix:local`; with none, `iri` itself.
pub open spec fn shrink_spec(iri: Seq<char>, rev: Seq<(Seq<char>, Seq<char>)>) -> Seq<char> {
    match first_fit(iri, rev, 0) {
        Some(k) => rev[k].1.push(':') + iri.skip(rev[k].0.len() as int),
        None => iri,
    }
}

/// `first_fit` finds the first fitting namespace at or after `i`.
pub proof fn lemma_first_fit(iri: Seq<char>, rev: Seq<(Seq<char>, Seq<char>)>, i: int)
    requires
        0 <= i,
    ensures
        match first_fit(iri, rev, i) {
            Some(k) => i <= k < rev.len() && fits(iri, rev[k].0) && forall|j: int|
                i <= j < k ==> !fits(iri, #[trigger] rev[j].0),
            None => forall|j: int| i <= j < rev.len() ==> !fits(iri, #[trigger] rev[j].0),
        },
    decreases rev.len() - i,
{
    if i < rev.len() && !fits(iri, rev[i].0) {
        lemma_first_fit(iri, rev, i + 1);
    }
}

/// Shrink a full IRI to `prefix:local` when a namespace matches and the local
/// part is a valid prefixed-name local (no slashes etc.); otherwise return the
/// IRI unchanged. The pairs of `rev` are tried in order.
pub fn shrink(iri: &str, rev: &Vec<(String, String)>) -> (r: String)
    ensures
        r@ == shrink_spec(iri@, pair_views(rev@)),
{
    let s = chars_of(iri);
    let ghost rv = pair_views(rev@);
    let mut i: usize = 0;
    while i < rev.len()
        invariant
            s@ == iri@,
            rv == pair_views(rev@),
            i <= rev.len(),
            first_fit(iri@, rv, 0) == first_fit(iri@, rv, i as int),
        decreases rev.len() - i,
    {
        let ns = chars_of(rev[i].0.as_str());
        assert(rv[i as int].0 == ns@);
        if matches_at_exec(&s, &ns, 0) {
            let local = slice_of(&s, ns.len(), s.len());
            assert(local@ =~= iri@.skip(ns@.len() as int));
            if is_pn_local(&local) {
                let mut out = chars_of(rev[i].1.as_str());
                out.push(':');
                append_chars(&mut out, &local);
                return string_of(&out);
            }
        }
        i += 1;
    }
    iri.to_owned()
}

/// A local part is valid exactly when it is not empty, starts with an ASCII
/// letter (either case), digit or `_`, holds only ASCII letters, digits,
/// `_`, `-` and `.`, and does not end with `.`.
pub proof fn lemma_pn_local_meaning(s: Seq<char>)
    ensures
        pn_local(s) <==> (s.len() >= 1 && (('0' <= s[0] && s[0] <= '9') || ('a' <= s[0] && s[0] <= 'z')
            || ('A' <= s[0] && s[0] <= 'Z') || s[0] == '_') && s[s.len() - 1] != '.' && forall|i: int|
            0 <= i < s.len() ==> (('0' <= #[trigger] s[i] && s[i] <= '9') || ('a' <= s[i] && s[i] <= 'z')
                || ('A' <= s[i] && s[i] <= 'Z') || s[i] == '_' || s[i] == '-' || s[i] == '.')),
{
}

/// Shrinking takes the first pair of `rev` whose namespace starts the IRI
/// and leaves a valid local part, and writes `prefix:local`.
pub proof fn lemma_shrink_first_fit(iri: Seq<char>, rev: Seq<(Seq<char>, Seq<char>)>, k: int)
    requires
        0 <= k < rev.len(),
        rev[k].0.len() <= iri.len(),
        iri.take(rev[k].0.len() as int) == rev[k].0,
        pn_local(iri.skip(rev[k].0.len() as int)),
        forall|j: int|
            0 <= j < k && (#[trigger] rev[j]).0.len() <= iri.len() && iri.take(rev[j].0.len() as int)
                == rev[j].0 ==> !pn_local(iri.skip(rev[j].0.len() as int)),
    ensures
        shrink_spec(iri, rev) == rev[k].1 + ":"@ + iri.skip(rev[k].0.len() as int),
{
    reveal_strlit(":");
    lemma_first_fit(iri, rev, 0);
    assert(fits(iri, rev[k].0)) by {
        assert(iri.subrange(0, rev[k].0.len() as int) == iri.take(rev[k].0.len() as int));
    }
    match first_fit(iri, rev, 0) {
        Some(f) => {
            if f < k {
                assert(fits(iri, rev[f].0));
                assert(iri.subrange(0, rev[f].0.len() as int) =~= iri.take(rev[f].0.len() as int));
                assert(!pn_local(iri.skip(rev[f].0.len() as int)));
            } else if f > k {
                assert(!fits(iri, rev[k].0));
            }
            assert(rev[k].1.push(':') =~= rev[k].1 + ":"@);
        },
        None => {
            assert(!fits(iri, rev[k].0));
        },
    }
}

/// With no pair whose namespace starts the IRI and leaves a valid local
/// part, shrinking gives the IRI back.
pub proof fn lemma_shrink_no_fit(iri: Seq<char>, rev: Seq<(Seq<char>, Seq<char>)>)
    requires
        forall|j: int|
            0 <= j < rev.len() && (#[trigger] rev[j]).0.len() <= iri.len() && iri.take(rev[j].0.len() as int)
                == rev[j].0 ==> !pn_local(iri.skip(rev[j].0.len() as int)),
    ensures
        shrink_spec(iri, rev) == iri,
{
    lemma_first_fit(iri, rev, 0);
    match first_fit(iri, rev, 0) {
        Some(f) => {
            assert(fits(iri, rev[f].0));
            assert(iri.subrange(0, rev[f].0.len() as int) =~= iri.take(rev[f].0.len() as int));
            assert(!pn_local(iri.skip(rev[f].0.len() as int)));
        },
        None => {},
    }
}

// ── the reverse table ──────────────────────────────────────────────────────

/// The length of a namespace as `str::len` gives it: its UTF-8 byte count.
pub open spec fn ns_len(s: Seq<char>) -> usize {
    encode_utf8(s).len() as usize
}

/// Stable insertion of `e` into `s`, which runs longest namespace first: `e`
/// goes right after the last entry whose namespace is at least as long.
pub open spec fn insert_by_len(s: Seq<(Seq<char>, Seq<char>)>, e: (Seq<char>, Seq<char>)) -> Seq<
    (Seq<char>, Seq<char>),
>
    decreases s.len(),
{
    if s.len() == 0 || ns_len(s.last().0) >= ns_len(e.0) {
        s.push(e)
    } else {
        insert_by_len(s.drop_last(), e).push(s.last())
    }
}

/// `s` stably sorted by namespace length, longest first (a stable
/// `sort_by` on the descending length).
pub open spec fn sort_by_len(s: Seq<(Seq<char>, Seq<char>)>) -> Seq<(Seq<char>, Seq<char>)>
    decreases s.len(),
{
    if s.len() == 0 {
        s
    } else {
        insert_by_len(sort_by_len(s.drop_last()), s.last())
    }
}

/// The (namespace, prefix) pairs of a prefix map's entries, in order.
pub open spec fn swapped(ps: Seq<(String, String)>) -> Seq<(Seq<char>, Seq<char>)> {
    ps.map_values(|e: (String, String)| (e.1@, e.0@))
}

/// Namespaces run longest first.
pub open spec fn longest_first(s: Seq<(Seq<char>, Seq<char>)>) -> bool {
    forall|i: int, j: int| 0 <= i < j < s.len() ==> ns_len(#[trigger] s[i].0) >= ns_len(#[trigger] s[j].0)
}

/// Where `insert_by_len` puts `e`: after the first `k` entries, when those
/// are at least as long and the rest are shorter.
proof fn lemma_insert_at(s: Seq<(Seq<char>, Seq<char>)>, e: (Seq<char>, Seq<char>), k: int)
    requires
        0 <= k <= s.len(),
        forall|j: int| k <= j < s.len() ==> ns_len(#[trigger] s[j].0) < ns_len(e.0),
        k == 0 || ns_len(s[k - 1].0) >= ns_len(e.0),
    ensures
        insert_by_len(s, e) == s.take(k).push(e) + s.skip(k),
    decreases s.len(),
{
    if s.len() == 0 || ns_len(s.last().0) >= ns_len(e.0) {
        assert(k == s.len());
        assert(s.take(k) =~= s);
        assert(s.push(e) =~= s.take(k).push(e) + s.skip(k));
    } else {
        let d = s.drop_last();
        lemma_insert_at(d, e, k);
        assert(insert_by_len(d, e).push(s.last()) =~= s.take(k).push(e) + s.skip(k));
    }
}

/// Every entry of `insert_by_len(s, e)` is `e` or an entry of `s`, and the
/// result has one more entry.
proof fn lemma_insert_members(s: Seq<(Seq<char>, Seq<char>)>, e: (Seq<char>, Seq<char>))
    ensures
        insert_by_len(s, e).len() == s.len() + 1,
        forall|x| #[trigger] insert_by_len(s, e).contains(x) ==> x == e || s.contains(x),
        insert_by_len(s, e).to_multiset() == s.to_multiset().insert(e),
    decreases s.len(),
{
    broadcast use vstd::seq_lib::group_to_multiset_ensures;
    if s.len() == 0 || ns_len(s.last().0) >= ns_len(e.0) {
        assert forall|x| #[trigger] s.push(e).contains(x) implies x == e || s.contains(x) by {
            let i = choose|i: int| 0 <= i < s.push(e).len() && s.push(e)[i] == x;
            if i < s.len() {
                assert(s[i] == x);
            }
        }
    } else {
        let d = s.drop_last();
        lemma_insert_members(d, e);
        let t = insert_by_len(d, e);
        assert forall|x| #[trigger] t.push(s.last()).contains(x) implies x == e || s.contains(x) by {
            let i = choose|i: int| 0 <= i < t.push(s.last()).len() && t.push(s.last())[i] == x;
            if i < t.len() {
                assert(t.contains(x));
                if x != e {
                    let j = choose|j: int| 0 <= j < d.len() && d[j] == x;
                    assert(s[j] == x);
                }
            } else {
                assert(s[s.len() - 1] == x);
            }
        }
        assert(s =~= d.push(s.last()));
        assert(t.push(s.last()).to_multiset() =~= s.to_multiset().insert(e));
    }
}

/// Inserting keeps the entries longest first.
proof fn lemma_insert_sorted(s: Seq<(Seq<char>, Seq<char>)>, e: (Seq<char>, Seq<char>))
    requires
        longest_first(s),
    ensures
        longest_first(insert_by_len(s, e)),
    decreases s.len(),
{
    if s.len() == 0 || ns_len(s.last().0) >= ns_len(e.0) {
        assert forall|i: int, j: int| 0 <= i < j < s.push(e).len() implies ns_len(
            #[trigger] s.push(e)[i].0,
        ) >= ns_len(#[trigger] s.push(e)[j].0) by {
            if j == s.len() as int && i < s.len() - 1 {
                assert(ns_len(s[i].0) >= ns_len(s[s.len() - 1].0));
            }
        }
    } else {
        let d = s.drop_last();
        lemma_insert_sorted(d, e);
        lemma_insert_members(d, e);
        let t = insert_by_len(d, e);
        let l = s.last();
        assert forall|i: int, j: int| 0 <= i < j < t.push(l).len() implies ns_len(
            #[trigger] t.push(l)[i].0,
        ) >= ns_len(#[trigger] t.push(l)[j].0) by {
            if j == t.len() as int {
                let x = t[i];
                assert(t.contains(x));
                if x != e {
                    let k = choose|k: int| 0 <= k < d.len() && d[k] == x;
                    assert(s[k] == x);
                }
            } else {
                assert(t.push(l)[i] == t[i] && t.push(l)[j] == t[j]);
            }
        }
    }
}

/// The stable sort runs longest namespace first and holds exactly the
/// entries it was given.
pub proof fn lemma_sort_by_len(s: Seq<(Seq<char>, Seq<char>)>)
    ensures
        longest_first(sort_by_len(s)),
        sort_by_len(s).to_multiset() == s.to_multiset(),
        sort_by_len(s).len() == s.len(),
    decreases s.len(),
{
    broadcast use vstd::seq_lib::group_to_multiset_ensures;
    if s.len() > 0 {
        lemma_sort_by_len(s.drop_last());
        lemma_insert_sorted(sort_by_len(s.drop_last()), s.last());
        lemma_insert_members(sort_by_len(s.drop_last()), s.last());
        assert(s =~= s.drop_last().push(s.last()));
    }
}

/// (namespace, prefix) pairs sorted by namespace length descending, the
/// map's key order kept among equal lengths; used for shrinking so the most
/// specific namespace wins.
pub fn reverse(map: &SortedMap<String>) -> (r: Vec<(String, String)>)
    ensures
        pair_views(r@) == sort_by_len(swapped(map.pairs())),
{
    let es = map.entries();
    let ghost src = swapped(map.pairs());
    let mut out: Vec<(String, String)> = Vec::new();
    let mut i: usize = 0;
    while i < es.len()
        invariant
            es@ == map.pairs(),
            src == swapped(map.pairs()),
            i <= es@.len(),
            pair_views(out@) == sort_by_len(src.take(i as int)),
        decreases es.len() - i,
    {
        let ns = es[i].1.clone();
        let p = es[i].0.clone();
        let key = ns.as_str().len();
        let ghost e = (ns@, p@);
        assert(src[i as int] == e);
        assert(src.take(i + 1).drop_last() =~= src.take(i as int));
        let ghost before = pair_views(out@);
        let mut k = out.len();
        while k > 0 && out[k - 1].0.as_str().len() < key
            invariant
                k <= out@.len(),
                before == pair_views(out@),
                key == ns_len(e.0),
                forall|j: int| k <= j < before.len() ==> ns_len(#[trigger] before[j].0) < key,
            decreases k,
        {
            assert(before[k - 1] == (out@[k - 1].0@, out@[k - 1].1@));
            k -= 1;
        }
        proof {
            if k > 0 {
                assert(before[k - 1] == (out@[k - 1].0@, out@[k - 1].1@));
            }
            lemma_insert_at(before, e, k as int);
        }
        out.insert(k, (ns, p));
        assert(pair_views(out@) =~= before.take(k as int).push(e) + before.skip(k as int));
        i += 1;
    }
    assert(src.take(es.len() as int) =~= src);
    out
}

// ── laws of shrinking ──────────────────────────────────────────────────────

/// The most specific namespace wins: when shrinking with the reverse table
/// of a prefix map picks a namespace, no other namespace that fits the IRI
/// is longer; when it picks none, none fits.
pub proof fn lemma_shrink_longest(m: SortedMap<String>, iri: Seq<char>)
    ensures
        ({
            let rev = sort_by_len(swapped(m.pairs()));
            match first_fit(iri, rev, 0) {
                Some(k) => forall|j: int|
                    0 <= j < rev.len() && fits(iri, #[trigger] rev[j].0) ==> ns_len(rev[k].0)
                        >= ns_len(rev[j].0),
                None => forall|j: int| 0 <= j < rev.len() ==> !fits(iri, #[trigger] rev[j].0),
            }
        }),
{
    let rev = sort_by_len(swapped(m.pairs()));
    lemma_sort_by_len(swapped(m.pairs()));
    lemma_first_fit(iri, rev, 0);
    if let Some(k) = first_fit(iri, rev, 0) {
        assert forall|j: int| 0 <= j < rev.len() && fits(iri, #[trigger] rev[j].0) implies ns_len(
            rev[k].0,
        ) >= ns_len(rev[j].0) by {
            if j < k {
                assert(!fits(iri, rev[j].0));
            } else if j > k {
                assert(ns_len(rev[k].0) >= ns_len(rev[j].0));
            }
        }
    }
}

/// Every (namespace, prefix) pair of the reverse table is an entry of the
/// prefix map: the map sends that prefix to that namespace.
pub proof fn lemma_reverse_entries(m: SortedMap<String>, j: int)
    requires
        keys_ascending(m.pairs()),
        0 <= j < sort_by_len(swapped(m.pairs())).len(),
    ensures
        ({
            let e = sort_by_len(swapped(m.pairs()))[j];
            m@.contains_key(e.1) && m@[e.1] == e.0
        }),
{
    let src = swapped(m.pairs());
    let rev = sort_by_len(src);
    lemma_sort_by_len(src);
    let e = rev[j];
    assert(rev.to_multiset().count(e) > 0) by {
        broadcast use vstd::seq_lib::group_to_multiset_ensures;
        assert(rev.contains(e));
    }
    assert(src.contains(e)) by {
        broadcast use vstd::seq_lib::group_to_multiset_ensures;
        assert(src.to_multiset().count(e) > 0);
    }
    let i = choose|i: int| 0 <= i < src.len() && src[i] == e;
    lemma_pairs_map(m.pairs());
    assert(m.pairs()[i].0@ == e.1 && m.pairs()[i].1@ == e.0);
}

/// Expanding what shrinking made gives back the IRI: when the prefix map
/// has no key with a `:`, an IRI that the reverse table shrinks to
/// `prefix:local` expands again to `<IRI>`.
pub proof fn lemma_expand_shrunk(m: SortedMap<String>, iri: Seq<char>)
    requires
        keys_ascending(m.pairs()),
        forall|k: Seq<char>| #[trigger] m@.contains_key(k) ==> first_index(k, ':', 0) is None,
    ensures
        shrink_spec(iri, sort_by_len(swapped(m.pairs()))) != iri ==> expand_spec(
            shrink_spec(iri, sort_by_len(swapped(m.pairs()))),
            m@,
        ) == "<"@ + iri + ">"@,
{
    let rev = sort_by_len(swapped(m.pairs()));
    lemma_first_fit(iri, rev, 0);
    if let Some(k) = first_fit(iri, rev, 0) {
        let ns = rev[k].0;
        let p = rev[k].1;
        let local = iri.skip(ns.len() as int);
        let x = p.push(':') + local;
        lemma_reverse_entries(m, k);
        lemma_first_index(p, ':', 0);
        // `x` has exactly one `:`, right after the prefix, and no `/` after it.
        assert(x[p.len() as int] == ':');
        assert forall|i: int| 0 <= i < p.len() implies x[i] != ':' by {
            assert(x[i] == p[i]);
        }
        assert forall|i: int| p.len() < i < x.len() implies #[trigger] x[i] != ':' && x[i] != '/' by {
            assert(x[i] == local[i - p.len() - 1]);
        }
        assert(!contains(x, "://"@)) by {
            reveal_strlit("://");
            if contains(x, "://"@) {
                let i = choose|i: int| matches_at(x, "://"@, i);
                assert(x.subrange(i, i + 3)[0] == ':');
                assert(x.subrange(i, i + 3)[1] == '/');
                assert(x[i] == ':');
                assert(x[i + 1] == '/');
            }
        }
        lemma_first_index(x, ':', 0);
        assert(first_index(x, ':', 0) == Some(p.len() as int)) by {
            if first_index(x, ':', 0) != Some(p.len() as int) {
                let f = first_index(x, ':', 0);
                if f is None {
                    assert(x[p.len() as int] == ':');
                } else {
                    let fi = f->0;
                    assert(x[fi] == ':');
                }
            }
        }
        assert(x.take(p.len() as int) =~= p);
        assert(x.skip(p.len() as int + 1) =~= local);
        assert(matches_at(iri, ns, 0));
        assert(iri =~= ns + local) by {
            assert(iri.subrange(0, ns.len() as int) == ns);
        }
    }
}

} // verus!
