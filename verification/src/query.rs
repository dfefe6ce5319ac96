//! Answering a query: from the bundles found under the search roots, those
//! whose titles the query matches.

use vstd::prelude::*;
use vstd::string::StringExecFns;
use crate::cache::{accepted_by, payloads, unframe, CacheFile, CacheManager};
use crate::checker::Checker;
use crate::checkers::Entry;
use crate::configs::Configs;
use crate::json::{collect, json_string, JsonError};
use crate::matcher::{match_query, query_matches};
use crate::names::NameOverrideTable;
use crate::response::{json_of, jsons_of};
use crate::service::{service_json, title_of, Service};
use crate::text::{copy_strings, str_to_lowercase, string_views, to_lowercase};
use crate::walker::Walker;

verus! {

/// Whether `service` is the record for the bundle at `path`.
pub open spec fn is_service_of(
    service: Service,
    path: Seq<char>,
    names: Map<Seq<char>, Seq<char>>,
) -> bool {
    &&& service.title@ == title_of(path, names)
    &&& service.subtitle@ == path
    &&& service.id@ == path
}

/// The test that the title for a path matches `query`.
pub open spec fn is_hit(query: Seq<char>, names: Map<Seq<char>, Seq<char>>) -> spec_fn(
    Seq<char>,
) -> bool {
    |path: Seq<char>| query_matches(query, title_of(path, names))
}

/// The paths among `paths` whose titles match `query`, in their order.
pub open spec fn hits(
    query: Seq<char>,
    paths: Seq<Seq<char>>,
    names: Map<Seq<char>, Seq<char>>,
) -> Seq<Seq<char>> {
    paths.filter(is_hit(query, names))
}

/// The paths that identify a list of services.
pub open spec fn ids_of(services: Seq<Service>) -> Seq<Seq<char>> {
    Seq::new(services.len(), |i: int| services[i].id@)
}

/// Whether each service of the list is the record for the path that
/// identifies it.
pub open spec fn are_services(services: Seq<Service>, names: Map<Seq<char>, Seq<char>>) -> bool {
    forall|i: int|
        0 <= i < services.len() ==> is_service_of(
            #[trigger] services[i],
            services[i].id@,
            names,
        )
}

/// Lines of text, each ended by a line feed.
pub open spec fn lines(items: Seq<Seq<char>>) -> Seq<char>
    decreases items.len(),
{
    if items.len() == 0 {
        Seq::empty()
    } else {
        lines(items.drop_last()) + items.last() + seq!['\n']
    }
}

/// Where the results for the roots that may be cached come from.
pub enum Source {
    /// There are no such roots, and so no such results.
    Absent,
    /// The cache holds them.
    Cache(Vec<String>),
    /// The cache holds nothing: the roots are walked, and what is found is
    /// saved, all of it, whatever the query.
    Walk,
}

/// What the cache gives for the roots that may be cached: what `file` holds,
/// as `manager` reads it.
pub open spec fn cached_paths(manager: CacheManager, file: Seq<u8>) -> Seq<Seq<u8>> {
    if manager.is_configured() {
        unframe(file, accepted_by::<String>())
    } else {
        Seq::empty()
    }
}

/// Decides where the results for `roots` come from. Without such roots there
/// are none. A cache that holds anything is taken as it is, however old; one
/// that holds nothing, or is missing, has the roots walked.
pub fn stable_source(roots: &Vec<String>, manager: &CacheManager, file: &CacheFile) -> (source:
    Source)
    ensures
        match source {
            Source::Absent => roots@.len() == 0,
            Source::Cache(cached) => roots@.len() > 0 && cached@.len() > 0 && payloads(cached@)
                == cached_paths(*manager, file@),
            Source::Walk => roots@.len() > 0 && cached_paths(*manager, file@).len() == 0,
        },
{
    if roots.len() == 0 {
        return Source::Absent;
    }
    let cached: Vec<String> = manager.bunch_read(file);
    if cached.len() == 0 {
        Source::Walk
    } else {
        Source::Cache(cached)
    }
}

/// Answers queries under one set of settings.
pub struct QueryProcessor<'a> {
    checker: Checker,
    names: &'a NameOverrideTable,
}

impl<'a> QueryProcessor<'a> {
    /// The paths that the search ignores.
    pub closed spec fn ignored(&self) -> Set<Seq<char>> {
        self.checker.ignored()
    }

    /// The names shown for preference panes.
    pub closed spec fn names(&self) -> Map<Seq<char>, Seq<char>> {
        self.names@
    }

    /// A processor that ignores what `configs` says to ignore and takes its
    /// names from it.
    pub fn new(configs: &'a Configs) -> (processor: QueryProcessor<'a>)
        ensures
            processor.ignored() == string_views(configs.ignored_paths()).to_set(),
            processor.names() == configs.pref_names(),
    {
        let ignored = copy_strings(configs.get_ignore_paths());
        QueryProcessor { checker: Checker::new(ignored), names: configs.get_pref_names() }
    }

    /// A walk from `root` under the checks of this processor.
    pub fn walker(&self, root: Entry) -> (walker: Walker<'_>)
        ensures
            walker.pending() == seq![root],
            walker.found() == Seq::<Seq<char>>::empty(),
            walker.ignored() == self.ignored(),
    {
        Walker::new(&self.checker, root)
    }

    /// The record for the bundle at `path`, if its title matches `query`.
    pub fn filter_output_path(&self, path: &str, query: &str) -> (hit: Option<Service>)
        ensures
            match hit {
                Some(service) => is_hit(query@, self.names())(path@) && is_service_of(
                    service,
                    path@,
                    self.names(),
                ),
                None => !is_hit(query@, self.names())(path@),
            },
    {
        let service = Service::new(path, self.names);
        if match_query(query, service.title.as_str()) {
            Some(service)
        } else {
            None
        }
    }

    /// The records for the bundles among `paths` whose titles match `query`,
    /// in the order of `paths`.
    pub fn select(&self, query: &str, paths: &Vec<String>) -> (services: Vec<Service>)
        ensures
            ids_of(services@) == hits(query@, string_views(paths@), self.names()),
            are_services(services@, self.names()),
    {
        let mut services: Vec<Service> = Vec::new();
        let ghost wanted = is_hit(query@, self.names());
        let ghost all = string_views(paths@);
        let mut i: usize = 0;
        assert(all.take(0) =~= Seq::<Seq<char>>::empty());
        assert(ids_of(services@) =~= all.take(0).filter(wanted)) by {
            reveal(Seq::filter);
        }
        while i < paths.len()
            invariant
                i <= paths@.len(),
                all == string_views(paths@),
                wanted == is_hit(query@, self.names()),
                ids_of(services@) == all.take(i as int).filter(wanted),
                are_services(services@, self.names()),
            decreases paths@.len() - i,
        {
            let ghost before = services@;
            let hit = self.filter_output_path(paths[i].as_str(), query);
            match hit {
                Some(service) => {
                    services.push(service);
                    assert(ids_of(services@) =~= ids_of(before).push(paths@[i as int]@));
                },
                None => {},
            }
            proof {
                reveal(Seq::filter);
                let next = all.take(i + 1);
                assert(next.drop_last() =~= all.take(i as int));
                assert(next.last() == paths@[i as int]@);
            }
            i += 1;
        }
        assert(all.take(paths@.len() as int) =~= all);
        services
    }

    /// Answers `req`: the query is put in lower case once, and the records
    /// that it matches are given, those of the `stable` paths before those
    /// of the `volatile` ones.
    pub fn query(&self, req: &str, stable: &Vec<String>, volatile: &Vec<String>) -> (services: Vec<
        Service,
    >)
        ensures
            ids_of(services@) == hits(
                str_to_lowercase(req@),
                string_views(stable@),
                self.names(),
            ) + hits(str_to_lowercase(req@), string_views(volatile@), self.names()),
            are_services(services@, self.names()),
    {
        let lowered = to_lowercase(req);
        let mut services = self.select(lowered.as_str(), stable);
        let mut fresh = self.select(lowered.as_str(), volatile);
        let ghost first = services@;
        let ghost second = fresh@;
        services.append(&mut fresh);
        proof {
            assert(services@ == first + second);
            assert(ids_of(services@) =~= ids_of(first) + ids_of(second));
            assert forall|i: int| 0 <= i < services@.len() implies is_service_of(
                #[trigger] services@[i],
                services@[i].id@,
                self.names(),
            ) by {
                if i < first.len() {
                    assert(services@[i] == first[i]);
                } else {
                    assert(services@[i] == second[i - first.len()]);
                }
            }
        }
        services
    }
}

/// The lines one after the other, each ended by a line feed.
pub fn render_lines(items: &Vec<String>) -> (text: String)
    ensures
        text@ == lines(string_views(items@)),
{
    let mut text = String::new();
    let mut i: usize = 0;
    assert(string_views(items@).take(0) =~= Seq::<Seq<char>>::empty());
    while i < items.len()
        invariant
            i <= items@.len(),
            text@ == lines(string_views(items@).take(i as int)),
        decreases items@.len() - i,
    {
        proof {
            reveal_strlit("\n");
            assert("\n"@ =~= seq!['\n']);
            let next = string_views(items@).take(i + 1);
            assert(next.drop_last() =~= string_views(items@).take(i as int));
            assert(next.last() == items@[i as int]@);
        }
        text.append(items[i].as_str());
        text.append("\n");
        i += 1;
    }
    assert(string_views(items@).take(items@.len() as int) =~= string_views(items@));
    text
}

/// The services as JSON objects, one on each line, in their order.
pub fn render(services: &Vec<Service>) -> (text: Result<String, JsonError>)
    ensures
        text matches Ok(t) && t@ == lines(jsons_of(services@)),
{
    let mut items: Vec<Result<String, JsonError>> = Vec::new();
    let mut i: usize = 0;
    while i < services.len()
        invariant
            i <= services@.len(),
            items@.len() == i,
            forall|j: int|
                0 <= j < i ==> ((#[trigger] items@[j]) matches Ok(json) && json@ == json_of(
                    services@[j],
                )),
        decreases services@.len() - i,
    {
        items.push(services[i].to_json());
        i += 1;
    }
    match collect(&items) {
        Ok(written) => {
            assert(string_views(written@) =~= jsons_of(services@));
            Ok(render_lines(&written))
        },
        Err(error) => Err(error),
    }
}

/// The JSON object for the bundle at `path`.
pub open spec fn hit_json(path: Seq<char>, names: Map<Seq<char>, Seq<char>>) -> Seq<char> {
    service_json(json_string(title_of(path, names)), json_string(path), json_string(path))
}

/// The JSON objects for the bundles at `paths`.
pub open spec fn hit_jsons(paths: Seq<Seq<char>>, names: Map<Seq<char>, Seq<char>>) -> Seq<
    Seq<char>,
> {
    Seq::new(paths.len(), |i: int| hit_json(paths[i], names))
}

/// The answer to `req`: the bundles among the `stable` paths and then among
/// the `volatile` ones whose titles match `req` in lower case, each as a
/// JSON object on a line of its own.
pub open spec fn answer(
    req: Seq<char>,
    stable: Seq<Seq<char>>,
    volatile: Seq<Seq<char>>,
    names: Map<Seq<char>, Seq<char>>,
) -> Seq<char> {
    lines(
        hit_jsons(
            hits(str_to_lowercase(req), stable, names) + hits(
                str_to_lowercase(req),
                volatile,
                names,
            ),
            names,
        ),
    )
}

/// Answers `req` under `configs`, for bundles that have been found at the
/// `stable` and at the `volatile` paths: the text to hand to the output.
pub fn query(req: &str, configs: &Configs, stable: &Vec<String>, volatile: &Vec<String>) -> (text:
    Result<String, JsonError>)
    ensures
        text matches Ok(t) && t@ == answer(
            req@,
            string_views(stable@),
            string_views(volatile@),
            configs.pref_names(),
        ),
{
    let processor = QueryProcessor::new(configs);
    let services = processor.query(req, stable, volatile);
    proof {
        let names = configs.pref_names();
        assert forall|i: int| 0 <= i < services@.len() implies jsons_of(services@)[i] == hit_jsons(
            ids_of(services@),
            names,
        )[i] by {
            assert(is_service_of(services@[i], services@[i].id@, names));
        }
        assert(jsons_of(services@) =~= hit_jsons(ids_of(services@), names));
    }
    render(&services)
}

} // verus!
