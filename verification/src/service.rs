//! The record that the search gives for a bundle: the title to show, and the
//! path of the bundle.

use vstd::prelude::*;
use vstd::string::StringExecFns;
use crate::json::{collect, json_string, quote, JsonError};
use crate::names::NameOverrideTable;
use crate::path::{extension, file_stem, option_view, path_extension, path_file_stem};
use crate::text::{join, join_slices, str_eq, string_views};
use crate::tokenizer::{tokenize, tokens_of};

verus! {

/// The title made from a stem alone: its tokens, stop words kept, with
/// spaces between them.
pub open spec fn display_title(stem: Seq<char>) -> Seq<char> {
    join(tokens_of(stem), seq![' '])
}

/// The name to show for a raw identifier: the one the table has for it,
/// else the title made from the identifier.
pub open spec fn term_of(name: Seq<char>, table: Map<Seq<char>, Seq<char>>) -> Seq<char> {
    if table.contains_key(name) {
        table[name]
    } else {
        display_title(name)
    }
}

/// The title for a path with this stem and extension. Only preference panes
/// have their names looked up in the table. A path without a stem has an
/// empty title.
pub open spec fn title_from(
    stem: Option<Seq<char>>,
    ext: Option<Seq<char>>,
    table: Map<Seq<char>, Seq<char>>,
) -> Seq<char> {
    match stem {
        None => Seq::empty(),
        Some(stem) => if ext == Some("prefPane"@) {
            term_of(stem, table)
        } else {
            display_title(stem)
        },
    }
}

/// The title for `path`.
pub open spec fn title_of(path: Seq<char>, table: Map<Seq<char>, Seq<char>>) -> Seq<char> {
    title_from(path_file_stem(path), path_extension(path), table)
}

/// The JSON object for a record, given its three fields as JSON strings.
pub open spec fn service_json(title: Seq<char>, subtitle: Seq<char>, id: Seq<char>) -> Seq<char> {
    "{\"title\":"@ + title + ",\"subtitle\":"@ + subtitle + ",\"id\":"@ + id + "}"@
}

/// The title made from `stem` alone.
pub fn display_name(stem: &str) -> (title: String)
    ensures
        title@ == display_title(stem@),
{
    proof {
        reveal_strlit(" ");
        assert(" "@ =~= seq![' ']);
    }
    join_slices(&tokenize(stem), " ")
}

/// The name to show for the raw identifier `name`.
pub fn map_term(name: &str, table: &NameOverrideTable) -> (term: String)
    ensures
        term@ == term_of(name@, table@),
{
    match table.get(name) {
        Some(value) => value.clone(),
        None => display_name(name),
    }
}

/// A result of the search.
#[derive(Debug)]
pub struct Service {
    pub title: String,
    pub subtitle: String,
    pub id: String,
}

impl Service {
    /// The record for the bundle at `path`: its title, and the path as both
    /// subtitle and identifier.
    pub fn new(path: &str, table: &NameOverrideTable) -> (service: Service)
        ensures
            service.title@ == title_of(path@, table@),
            service.subtitle@ == path@,
            service.id@ == path@,
    {
        let title = Service::file_name(path, table);
        Service { title, subtitle: path.to_owned(), id: path.to_owned() }
    }

    /// The title for a path with this stem and extension.
    pub fn title_for(stem: Option<&str>, ext: Option<&str>, table: &NameOverrideTable) -> (title:
        String)
        ensures
            title@ == title_from(option_view(stem), option_view(ext), table@),
    {
        match stem {
            None => String::new(),
            Some(stem) => {
                let overridable = match ext {
                    Some(ext) => str_eq(ext, "prefPane"),
                    None => false,
                };
                if overridable {
                    map_term(stem, table)
                } else {
                    display_name(stem)
                }
            },
        }
    }

    /// The title for `path`.
    pub fn file_name(path: &str, table: &NameOverrideTable) -> (title: String)
        ensures
            title@ == title_of(path@, table@),
    {
        Service::title_for(file_stem(path), extension(path), table)
    }

    /// The JSON object with these three fields, each given as a JSON string.
    pub fn assemble_json(title: &str, subtitle: &str, id: &str) -> (json: String)
        ensures
            json@ == service_json(title@, subtitle@, id@),
    {
        let mut json = String::from_str("{\"title\":");
        json.append(title);
        json.append(",\"subtitle\":");
        json.append(subtitle);
        json.append(",\"id\":");
        json.append(id);
        json.append("}");
        json
    }

    /// This record as a JSON object on one line. Every record has one.
    pub fn to_json(&self) -> (json: Result<String, JsonError>)
        ensures
            json matches Ok(text) && text@ == service_json(
                json_string(self.title@),
                json_string(self.subtitle@),
                json_string(self.id@),
            ),
    {
        let mut fields: Vec<Result<String, JsonError>> = Vec::new();
        fields.push(quote(self.title.as_str()));
        fields.push(quote(self.subtitle.as_str()));
        fields.push(quote(self.id.as_str()));
        match collect(&fields) {
            Ok(quoted) => {
                proof {
                    let texts = string_views(quoted@);
                    assert(texts.len() == 3);
                    assert(texts[0] == quoted@[0]@ && texts[1] == quoted@[1]@ && texts[2]
                        == quoted@[2]@);
                }
                Ok(
                    Service::assemble_json(
                        quoted[0].as_str(),
                        quoted[1].as_str(),
                        quoted[2].as_str(),
                    ),
                )
            },
            Err(error) => Err(error),
        }
    }
}

/// `service` as a JSON object on one line. Every service has one.
pub fn serialize_to_string(service: &Service) -> (json: Result<String, JsonError>)
    ensures
        json matches Ok(text) && text@ == service_json(
            json_string(service.title@),
            json_string(service.subtitle@),
            json_string(service.id@),
        ),
{
    service.to_json()
}

} // verus!
