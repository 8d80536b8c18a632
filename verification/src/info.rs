//! The metadata of a probed URL, read from the JSON that yt-dlp prints.

use vstd::prelude::*;
use crate::text;
use crate::json;
use crate::engine;
use crate::util::Platform;

verus! {

/// What a probe learns of a video, and the JSON object it was read from
/// (where its duration is read).
#[derive(Clone, Debug)]
pub struct VideoMeta {
    pub id: String,
    pub title: String,
    pub extractor: String,
    pub webpage_url: String,
    pub platform: Platform,
    pub source: String,
}

/// What a video's metadata holds.
pub struct MetaModel {
    pub id: Seq<char>,
    pub title: Seq<char>,
    pub extractor: Seq<char>,
    pub webpage_url: Seq<char>,
    pub platform: Platform,
    pub source: Seq<char>,
}

impl View for VideoMeta {
    type V = MetaModel;

    open spec fn view(&self) -> MetaModel {
        MetaModel {
            id: self.id@,
            title: self.title@,
            extractor: self.extractor@,
            webpage_url: self.webpage_url@,
            platform: self.platform,
            source: self.source@,
        }
    }
}

pub open spec fn or_default(o: Option<Seq<char>>, d: Seq<char>) -> Seq<char> {
    match o {
        Some(s) => s,
        None => d,
    }
}

/// The first element from `i` on that is an object.
pub open spec fn first_object_from(items: Seq<(bool, Seq<char>)>, i: int) -> Option<Seq<char>>
    decreases items.len() - i,
{
    if i < 0 || i >= items.len() {
        None
    } else if items[i].0 {
        Some(items[i].1)
    } else {
        first_object_from(items, i + 1)
    }
}

/// The first playlist entry that is an object, as JSON.
pub open spec fn first_entry(doc: Seq<char>) -> Option<Seq<char>> {
    match json::array_items(doc, "entries"@) {
        Some(items) => first_object_from(items, 0),
        None => None,
    }
}

/// The metadata from the members of a video object as JSON gives them,
/// with their defaults: `UNTITLED`, `-`, the extractor key where that member
/// exists (else the extractor), `generic`, and the fallback URL.
pub open spec fn meta_of(
    title: Option<Seq<char>>,
    id: Option<Seq<char>>,
    extractor_key: Option<Option<Seq<char>>>,
    extractor: Option<Seq<char>>,
    webpage_url: Option<Seq<char>>,
    fallback: Seq<char>,
    source: Seq<char>,
) -> MetaModel {
    let ex = match extractor_key {
        Some(k) => or_default(k, "generic"@),
        None => or_default(extractor, "generic"@),
    };
    let url = or_default(webpage_url, fallback);
    MetaModel {
        id: or_default(id, "-"@),
        title: or_default(title, "UNTITLED"@),
        extractor: ex,
        webpage_url: url,
        platform: engine::extractor_platform(ex, url),
        source,
    }
}

/// The fields of a video object (see `meta_of`).
pub open spec fn meta_fields(doc: Seq<char>, fallback: Seq<char>) -> MetaModel {
    meta_of(
        json::string_member(doc, "title"@),
        json::string_member(doc, "id"@),
        if json::has_member(doc, "extractor_key"@) {
            Some(json::string_member(doc, "extractor_key"@))
        } else {
            None
        },
        json::string_member(doc, "extractor"@),
        json::string_member(doc, "webpage_url"@),
        fallback,
        doc,
    )
}

pub open spec fn opt_opt_view(o: Option<Option<String>>) -> Option<Option<Seq<char>>> {
    match o {
        Some(k) => Some(engine::opt_view(k)),
        None => None,
    }
}

/// The metadata from the members of a video object (see `meta_of`).
pub fn meta_from(
    title: Option<String>,
    id: Option<String>,
    extractor_key: Option<Option<String>>,
    extractor: Option<String>,
    webpage_url: Option<String>,
    fallback: &str,
    source: &str,
) -> (r: VideoMeta)
    ensures
        r@ == meta_of(
            engine::opt_view(title),
            engine::opt_view(id),
            opt_opt_view(extractor_key),
            engine::opt_view(extractor),
            engine::opt_view(webpage_url),
            fallback@,
            source@,
        ),
{
    let ex = match extractor_key {
        Some(k) => or_str(k, "generic"),
        None => or_str(extractor, "generic"),
    };
    let url = or_str(webpage_url, fallback);
    let platform = engine::platform_from_extractor(ex.as_str(), url.as_str());
    VideoMeta {
        id: or_str(id, "-"),
        title: or_str(title, "UNTITLED"),
        extractor: ex,
        webpage_url: url,
        platform,
        source: text::owned(source),
    }
}

/// The metadata in yt-dlp's output: the JSON starts at the first `{`; a
/// playlist is read through its first entry that is an object, at most
/// `depth` levels down.
pub open spec fn info_at(json: Seq<char>, fallback: Seq<char>, depth: nat) -> Result<MetaModel, Seq<char>>
    decreases depth,
{
    let t = text::trimmed(json);
    match text::find_seq(t, "{"@) {
        None => Err("NO JSON FROM YT-DLP"@),
        Some(i) => {
            let doc = t.skip(i);
            match json::parse_error(doc) {
                Some(e) => Err("JSON: "@ + e),
                None => match first_entry(doc) {
                    Some(entry) => if depth > 0 {
                        info_at(entry, fallback, (depth - 1) as nat)
                    } else {
                        Ok(meta_fields(doc, fallback))
                    },
                    None => Ok(meta_fields(doc, fallback)),
                },
            }
        },
    }
}

/// How many levels of playlist entries are followed. serde_json refuses
/// documents nested deeper than 127 arrays and objects, and every level of
/// entries takes two of them, so no document it reads has more levels.
pub const ENTRY_DEPTH: u32 = 64;

/// The metadata in yt-dlp's output (see `info_at`).
pub open spec fn video_info(json: Seq<char>, fallback: Seq<char>) -> Result<MetaModel, Seq<char>> {
    info_at(json, fallback, ENTRY_DEPTH as nat)
}

fn or_str(o: Option<String>, d: &str) -> (r: String)
    ensures
        r@ == or_default(engine::opt_view(o), d@),
{
    match o {
        Some(s) => s,
        None => text::owned(d),
    }
}

fn read_fields(doc: &str, fallback: &str) -> (r: VideoMeta)
    ensures
        r@ == meta_fields(doc@, fallback@),
{
    let key = if json::has_field(doc, "extractor_key") {
        Some(json::string_field(doc, "extractor_key"))
    } else {
        None
    };
    meta_from(
        json::string_field(doc, "title"),
        json::string_field(doc, "id"),
        key,
        json::string_field(doc, "extractor"),
        json::string_field(doc, "webpage_url"),
        fallback,
        doc,
    )
}

/// The first element of a JSON array that is an object (see `first_object_from`).
pub fn first_object_item(items: &Vec<(bool, String)>) -> (r: Option<String>)
    ensures
        engine::opt_view(r) == first_object_from(json::item_views(items@), 0),
{
    let ghost iv = json::item_views(items@);
    let mut i: usize = 0;
    while i < items.len()
        invariant
            i <= items.len() == iv.len(),
            iv == json::item_views(items@),
            first_object_from(iv, 0) == first_object_from(iv, i as int),
        decreases items.len() - i,
    {
        assert(iv[i as int] == (items@[i as int].0, items@[i as int].1@));
        if items[i].0 {
            let c = items[i].1.clone();
            assert(c@ == iv[i as int].1);
            return Some(c);
        }
        i = i + 1;
    }
    None
}

fn entry_in(doc: &str) -> (r: Option<String>)
    ensures
        engine::opt_view(r) == first_entry(doc@),
{
    match json::array_field(doc, "entries") {
        Some(items) => first_object_item(&items),
        None => None,
    }
}

fn info_from(json: &str, fallback: &str, depth: u32) -> (r: Result<VideoMeta, String>)
    ensures
        match r {
            Ok(m) => info_at(json@, fallback@, depth as nat) == Ok::<MetaModel, Seq<char>>(m@),
            Err(e) => info_at(json@, fallback@, depth as nat) == Err::<MetaModel, Seq<char>>(e@),
        },
    decreases depth,
{
    let t = text::trim(&text::chars_of(json));
    let i = match text::find(&t, &text::chars_of("{")) {
        Some(i) => i,
        None => return Err(text::owned("NO JSON FROM YT-DLP")),
    };
    proof {
        reveal_strlit("{");
        text::lemma_find_from_some(t@, "{"@, 0);
    }
    let docv = text::slice_vec(&t, i, t.len());
    assert(docv@ =~= t@.skip(i as int));
    let doc = text::string_of(&docv);
    match json::error_of(doc.as_str()) {
        Some(e) => {
            let mut out: Vec<char> = Vec::new();
            text::push_str(&mut out, "JSON: ");
            text::push_str(&mut out, e.as_str());
            return Err(text::string_of(&out));
        },
        None => {},
    }
    match entry_in(doc.as_str()) {
        Some(entry) => {
            if depth > 0 {
                return info_from(entry.as_str(), fallback, depth - 1);
            }
        },
        None => {},
    }
    Ok(read_fields(doc.as_str(), fallback))
}

/// The metadata in yt-dlp's output (see `video_info`).
pub fn parse_info(json: &str, fallback_url: &str) -> (r: Result<VideoMeta, String>)
    ensures
        match r {
            Ok(m) => video_info(json@, fallback_url@) == Ok::<MetaModel, Seq<char>>(m@),
            Err(e) => video_info(json@, fallback_url@) == Err::<MetaModel, Seq<char>>(e@),
        },
{
    info_from(json, fallback_url, ENTRY_DEPTH)
}

} // verus!
