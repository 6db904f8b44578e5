//! The GraphQL interface of a Stash media server: requests, and what its
//! replies say.
use crate::funscript::text_of;
use crate::http::{HttpMethod, HttpRequest, RequestView};
use crate::json::{
    JsonView, array, as_array, as_bool, as_str, bool_in, boolean, contents, contents_seq, copy,
    get, get_of, integer, items_in, json_of_text, make_array1, make_object1, make_object2,
    make_object3, member, member_of, null, object, object1, object2, object3, parse, print, text,
    text_in, text_of_json, text_or, text_or_default,
};
use crate::text::{is_white, joined, lemma_trimmed, trim, trimmed};
use vstd::prelude::*;

verus! {

#[derive(Debug)]
pub struct StashConfig {
    pub endpoint: String,
    pub api_key: Option<String>,
    pub auto_rescan: bool,
}

impl Default for StashConfig {
    fn default() -> (res: Self)
        ensures
            res.endpoint@ == "http://localhost:9999/graphql"@,
            res.api_key is None,
            res.auto_rescan,
    {
        StashConfig {
            endpoint: "http://localhost:9999/graphql".to_owned(),
            api_key: None,
            auto_rescan: true,
        }
    }
}

/// Why a reply carries no data.
#[derive(Debug)]
pub enum StashError {
    /// The reply is no JSON
    BadReply(String),
    /// The server reported errors
    Reported(String),
}

/// The header that carries the key, where there is one that is not blank.
pub open spec fn key_header(api_key: Option<Seq<char>>) -> Seq<(Seq<char>, Seq<char>)> {
    match api_key {
        Some(key) => if trimmed(key).len() > 0 {
            seq![("ApiKey"@, trimmed(key))]
        } else {
            Seq::empty()
        },
        None => Seq::empty(),
    }
}

/// The request that carries a query.
pub open spec fn graphql_request(
    endpoint: Seq<char>,
    api_key: Option<Seq<char>>,
    query: Seq<char>,
    variables: JsonView,
) -> RequestView {
    RequestView {
        method: HttpMethod::Post,
        url: endpoint,
        headers: seq![("Content-Type"@, "application/json"@)] + key_header(api_key),
        body: text_of_json(object2("query"@, JsonView::Text(query), "variables"@, variables)),
    }
}

/// The data in a reply: its member `data`, or nothing where it has none.
pub open spec fn reply_data(reply: JsonView) -> JsonView {
    match member(reply, "data"@) {
        Some(data) => data,
        None => JsonView::Null,
    }
}

/// The filter for scenes without a script.
pub open spec fn missing_scenes_variables(limit: u32) -> JsonView {
    object2(
        "filter"@,
        object3(
            "per_page"@,
            JsonView::Unsigned(limit as u64),
            "sort"@,
            JsonView::Text("title"@),
            "direction"@,
            JsonView::Text("ASC"@),
        ),
        "scene_filter"@,
        object1(
            "interactive"@,
            object2(
                "value"@,
                JsonView::Bool(false),
                "modifier"@,
                JsonView::Text("EQUALS"@),
            ),
        ),
    )
}

/// Asks for the server's version.
pub const VERSION_QUERY: &'static str = "
            query GetVersion {
                version {
                    version
                }
            }
        ";

/// Asks for scenes and their files.
pub const SCENES_QUERY: &'static str = "
            query FindScenesMissingScripts($filter: FindFilterType, $scene_filter: SceneFilterType) {
                findScenes(filter: $filter, scene_filter: $scene_filter) {
                    count
                    scenes {
                        id
                        title
                        details
                        interactive
                        files {
                            path
                            duration
                            width
                            height
                        }
                    }
                }
            }
        ";

/// Asks for scenes and their files, in one line.
pub const SCENES_QUERY_LINE: &'static str = "query FindScenesMissingScripts($filter: FindFilterType, $scene_filter: SceneFilterType) { findScenes(filter: $filter, scene_filter: $scene_filter) { count scenes { id title details interactive files { path duration width height } } } }";

/// Asks for a scan of files.
pub const SCAN_QUERY: &'static str = "
            mutation MetadataScan($input: ScanMetadataInput!) {
                metadataScan(input: $input)
            }
        ";

/// Asks for the tags of a name.
pub const FIND_TAG_QUERY: &'static str = "
            query FindTag($name: String!) {
                findTags(tag_filter: { name: { value: $name, modifier: EQUALS } }) {
                    tags { id name }
                }
            }
        ";

/// Creates a tag.
pub const CREATE_TAG_QUERY: &'static str = "
                    mutation TagCreate($input: TagCreateInput!) {
                        tagCreate(input: $input) { id }
                    }
                ";

/// Changes a scene.
pub const UPDATE_SCENE_QUERY: &'static str = "
                mutation SceneUpdate($input: SceneUpdateInput!) {
                    sceneUpdate(input: $input) { id }
                }
            ";

/// Makes the requests of the Stash GraphQL interface.
#[derive(Debug)]
pub struct StashClient {
    pub config: StashConfig,
}

impl StashClient {
    pub fn new(config: StashConfig) -> (res: Self)
        ensures
            res.config == config,
    {
        StashClient { config }
    }

    /// The request for a raw GraphQL query
    pub fn execute_graphql(&self, query: &str, variables: serde_json::Value) -> (req: HttpRequest)
        ensures
            req@ == graphql_request(
                self.config.endpoint@,
                text_of(self.config.api_key),
                query@,
                contents(variables),
            ),
    {
        let body = make_object2("query", text(query.to_owned()), "variables", variables);
        let mut req = HttpRequest::new(
            HttpMethod::Post,
            self.config.endpoint.clone(),
            print(&body),
        );
        req.add_header("Content-Type", "application/json".to_owned());
        if let Some(key) = &self.config.api_key {
            let key: String = trim(key.as_str());
            if !key.as_str().is_empty() {
                req.add_header("ApiKey", key);
            }
        }
        assert(req@.headers =~= seq![("Content-Type"@, "application/json"@)] + key_header(
            text_of(self.config.api_key),
        ));
        req
    }

    /// The request for the server's version
    pub fn test_connection(&self) -> (req: HttpRequest)
        ensures
            req@ == graphql_request(
                self.config.endpoint@,
                text_of(self.config.api_key),
                VERSION_QUERY@,
                JsonView::Object(Map::empty()),
            ),
    {
        let none: Vec<(String, serde_json::Value)> = Vec::new();
        self.execute_graphql(VERSION_QUERY, object(none))
    }

    /// The request for scenes that do NOT have an interactive funscript attached
    pub fn find_scenes_missing_scripts(&self, limit: u32) -> (req: HttpRequest)
        ensures
            req@ == graphql_request(
                self.config.endpoint@,
                text_of(self.config.api_key),
                SCENES_QUERY@,
                missing_scenes_variables(limit),
            ),
    {
        self.execute_graphql(SCENES_QUERY, missing_variables(limit))
    }

    /// The request for a metadata scan on specific file paths to detect new funscripts
    pub fn trigger_metadata_scan(&self, paths: &Vec<String>) -> (req: HttpRequest)
        ensures
            req@ == graphql_request(
                self.config.endpoint@,
                text_of(self.config.api_key),
                SCAN_QUERY@,
                object1("input"@, object1("paths"@, text_array(paths@))),
            ),
    {
        let mut items: Vec<serde_json::Value> = Vec::new();
        let mut i: usize = 0;
        while i < paths.len()
            invariant
                i <= paths.len(),
                contents_seq(items@) == text_items(paths@).take(i as int),
            decreases paths.len() - i,
        {
            let ghost before = items@;
            items.push(text(paths[i].clone()));
            assert(contents_seq(items@) =~= contents_seq(before).push(
                JsonView::Text(paths@[i as int]@),
            ));
            i += 1;
            assert(contents_seq(items@) =~= text_items(paths@).take(i as int));
        }
        assert(text_items(paths@).take(i as int) =~= text_items(paths@));
        self.execute_graphql(
            SCAN_QUERY,
            make_object1("input", make_object1("paths", array(items))),
        )
    }

    /// The first request for attaching a tag to a scene: asks for the tag
    pub fn tag_scene(&self, tag_name: &str) -> (req: HttpRequest)
        ensures
            req@ == graphql_request(
                self.config.endpoint@,
                text_of(self.config.api_key),
                FIND_TAG_QUERY@,
                object1("name"@, JsonView::Text(tag_name@)),
            ),
    {
        self.execute_graphql(FIND_TAG_QUERY, make_object1("name", text(tag_name.to_owned())))
    }

    /// The request that creates a tag
    pub fn create_tag(&self, tag_name: &str) -> (req: HttpRequest)
        ensures
            req@ == graphql_request(
                self.config.endpoint@,
                text_of(self.config.api_key),
                CREATE_TAG_QUERY@,
                object1("input"@, object1("name"@, JsonView::Text(tag_name@))),
            ),
    {
        self.execute_graphql(
            CREATE_TAG_QUERY,
            make_object1("input", make_object1("name", text(tag_name.to_owned()))),
        )
    }

    /// The request that attaches a tag to a scene; none for a tag without an id
    pub fn attach_tag(&self, scene_id: &str, tag_id: &str) -> (req: Option<HttpRequest>)
        ensures
            req is None <==> tag_id@.len() == 0,
            req matches Some(r) ==> r@ == graphql_request(
                self.config.endpoint@,
                text_of(self.config.api_key),
                UPDATE_SCENE_QUERY@,
                object1(
                    "input"@,
                    object2(
                        "id"@,
                        JsonView::Text(scene_id@),
                        "tag_ids"@,
                        JsonView::Array(seq![JsonView::Text(tag_id@)]),
                    ),
                ),
            ),
    {
        if tag_id.is_empty() {
            return None;
        }
        let input = make_object2(
            "id",
            text(scene_id.to_owned()),
            "tag_ids",
            make_array1(text(tag_id.to_owned())),
        );
        Some(self.execute_graphql(UPDATE_SCENE_QUERY, make_object1("input", input)))
    }
}

/// Strings as the elements of an array.
pub open spec fn text_items(s: Seq<String>) -> Seq<JsonView> {
    s.map_values(|t: String| JsonView::Text(t@))
}

/// An array of strings.
pub open spec fn text_array(s: Seq<String>) -> JsonView {
    JsonView::Array(text_items(s))
}

fn missing_variables(limit: u32) -> (res: serde_json::Value)
    ensures
        contents(res) == missing_scenes_variables(limit),
{
    let filter = make_object3(
        "per_page",
        integer(limit as i64),
        "sort",
        text("title".to_owned()),
        "direction",
        text("ASC".to_owned()),
    );
    let interactive = make_object2(
        "value",
        boolean(false),
        "modifier",
        text("EQUALS".to_owned()),
    );
    make_object2("filter", filter, "scene_filter", make_object1("interactive", interactive))
}

/// The whole payload of the query for scenes without a script.
pub fn build_missing_scenes_query(limit: u32) -> (res: serde_json::Value)
    ensures
        contents(res) == object2(
            "query"@,
            JsonView::Text(SCENES_QUERY_LINE@),
            "variables"@,
            missing_scenes_variables(limit),
        ),
{
    make_object2(
        "query",
        text(SCENES_QUERY_LINE.to_owned()),
        "variables",
        missing_variables(limit),
    )
}

/// The data in a reply: an error where the reply is no JSON or reports errors.
pub fn parse_reply(body: &str) -> (res: Result<serde_json::Value, StashError>)
    ensures
        match json_of_text(body@) {
            Err(said) => res matches Err(StashError::BadReply(e)) && e@ == said,
            Ok(reply) => match member(reply, "errors"@) {
                Some(errors) => res matches Err(StashError::Reported(m)) && m@
                    == "Stash GraphQL returned errors: "@ + text_of_json(errors),
                None => res matches Ok(data) && contents(data) == reply_data(reply),
            },
        },
{
    match parse(body) {
        Err(e) => Err(StashError::BadReply(e)),
        Ok(reply) => read_reply(&reply),
    }
}

/// The data in a parsed reply, unless it reports errors.
pub fn read_reply(reply: &serde_json::Value) -> (res: Result<serde_json::Value, StashError>)
    ensures
        match member(contents(*reply), "errors"@) {
            Some(errors) => res matches Err(StashError::Reported(m)) && m@
                == "Stash GraphQL returned errors: "@ + text_of_json(errors),
            None => res matches Ok(data) && contents(data) == reply_data(contents(*reply)),
        },
{
    if let Some(errors) = get(reply, "errors") {
        return Err(
            StashError::Reported(
                joined("Stash GraphQL returned errors: ", print(errors).as_str()),
            ),
        );
    }
    match get(reply, "data") {
        Some(data) => Ok(copy(data)),
        None => Ok(null()),
    }
}

/// The version in the data of a reply.
pub fn version_in(data: &serde_json::Value) -> (version: String)
    ensures
        version@ == text_or_default(
            member_of(member(contents(*data), "version"@), "version"@),
            "Unknown"@,
        ),
{
    text_or(get_of(get(data, "version"), "version"), "Unknown")
}

/// The scenes in the data of a reply, an empty list where there are none.
pub fn scenes_in(data: &serde_json::Value) -> (scenes: serde_json::Value)
    ensures
        contents(scenes) == (match member_of(
            member(contents(*data), "findScenes"@),
            "scenes"@,
        ) {
            Some(list) => list,
            None => JsonView::Array(Seq::empty()),
        }),
{
    match get_of(get(data, "findScenes"), "scenes") {
        Some(list) => copy(list),
        None => {
            let none: Vec<serde_json::Value> = Vec::new();
            assert(contents_seq(none@) =~= Seq::empty());
            array(none)
        },
    }
}

/// Whether a scan was accepted, by the data of the reply; it was where the
/// reply does not say.
pub fn scan_accepted(data: &serde_json::Value) -> (ok: bool)
    ensures
        ok == (match bool_in(member(contents(*data), "metadataScan"@)) {
            Some(b) => b,
            None => true,
        }),
{
    match get(data, "metadataScan") {
        Some(v) => match as_bool(v) {
            Some(b) => b,
            None => true,
        },
        None => true,
    }
}

/// The id of the first tag in the data of a reply.
pub open spec fn first_tag(data: JsonView) -> Option<Seq<char>> {
    match items_in(member_of(member(data, "findTags"@), "tags"@)) {
        Some(tags) => if tags.len() > 0 {
            text_in(member(tags[0], "id"@))
        } else {
            None
        },
        None => None,
    }
}

/// The id of the tag that was found, if there is one.
pub fn found_tag(data: &serde_json::Value) -> (id: Option<String>)
    ensures
        text_of(id) == first_tag(contents(*data)),
{
    let list: &serde_json::Value = match get_of(get(data, "findTags"), "tags") {
        Some(list) => list,
        None => return None,
    };
    let tags: &Vec<serde_json::Value> = match as_array(list) {
        Some(tags) => tags,
        None => return None,
    };
    if tags.len() == 0 {
        return None;
    }
    assert(contents_seq(tags@)[0] == contents(tags@[0]));
    match get(&tags[0], "id") {
        Some(v) => match as_str(v) {
            Some(s) => Some(s.to_owned()),
            None => None,
        },
        None => None,
    }
}

/// The id of the tag that was created, empty where the reply names none.
pub fn created_tag(data: &serde_json::Value) -> (id: String)
    ensures
        id@ == text_or_default(member_of(member(contents(*data), "tagCreate"@), "id"@), ""@),
{
    text_or(get_of(get(data, "tagCreate"), "id"), "")
}

/// A key is sent without the white space around it, and not at all where there is nothing
/// else.
pub proof fn lemma_key_sent(key: Seq<char>)
    ensures
        key_header(Some(key)).len() <= 1,
        key_header(Some(key)).len() == 1 <==> exists|i: int|
            0 <= i < key.len() && !is_white(#[trigger] key[i]),
        key_header(Some(key)).len() == 1 ==> key_header(Some(key))[0] == ("ApiKey"@, trimmed(key)),
        key_header(None).len() == 0,
{
    let start = lemma_trimmed(key);
    if trimmed(key).len() > 0 {
        assert(!is_white(key[start]));
    }
}

} // verus!
