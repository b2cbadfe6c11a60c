//! The data that the Bilibili web API returns, as the library reads it.
use vstd::prelude::*;

use crate::error::Error;

verus! {

/// How a video is named in a request: by its BV id or by its numeric aid.
#[derive(Debug, Clone)]
pub enum VideoId {
    Bvid(String),
    Aid(u64),
}

/// The envelope of every API answer.
#[derive(Debug)]
pub struct ApiResponse<T> {
    pub code: i64,
    pub message: String,
    pub data: Option<T>,
}

impl<T> ApiResponse<T> {
    /// The payload of a successful answer; an error for a non-zero `code`
    /// or for a missing payload.
    pub fn into_data(self) -> (r: Result<T, Error>)
        ensures
            self.code != 0 ==> (r matches Err(Error::Api { code, message }) && code == self.code
                && message@ == self.message@),
            self.code == 0 && self.data is None ==> r matches Err(Error::MissingData),
            self.code == 0 && self.data is Some ==> r == Ok::<T, Error>(self.data->0),
    {
        if self.code != 0 {
            return Err(Error::Api { code: self.code, message: self.message });
        }
        match self.data {
            Some(data) => Ok(data),
            None => Err(Error::MissingData),
        }
    }
}

/// The answer of the `view` endpoint.
#[derive(Debug)]
pub struct ViewData {
    pub aid: u64,
    pub bvid: String,
    pub title: String,
    pub pages: Vec<PageData>,
    pub ugc_season: Option<UgcSeasonData>,
}

/// One page ("P") of a video.
#[derive(Debug)]
pub struct PageData {
    pub cid: u64,
    pub page: u32,
    pub part: String,
}

/// The collection ("合集") that a video belongs to.
#[derive(Debug)]
pub struct UgcSeasonData {
    pub title: String,
    pub sections: Vec<UgcSeasonSectionData>,
}

#[derive(Debug)]
pub struct UgcSeasonSectionData {
    pub episodes: Vec<UgcSeasonEpisodeData>,
}

#[derive(Debug)]
pub struct UgcSeasonEpisodeData {
    pub aid: u64,
    pub bvid: String,
}

/// The answer of the `playurl` endpoint.
#[derive(Debug)]
pub struct PlayData {
    pub accept_quality: Vec<u32>,
    pub accept_description: Vec<String>,
    pub dash: Option<DashData>,
    pub durl: Option<Vec<DurlData>>,
}

#[derive(Debug)]
pub struct DashData {
    pub video: Vec<DashStream>,
    pub audio: Option<Vec<DashStream>>,
}

/// One DASH stream; the API spells some fields in camel case, some in snake case.
#[derive(Debug)]
pub struct DashStream {
    pub id: u32,
    pub base_url_camel: Option<String>,
    pub base_url_snake: Option<String>,
    pub backup_url_camel: Option<Vec<String>>,
    pub backup_url_snake: Option<Vec<String>>,
    pub bandwidth: Option<u64>,
    pub codecs: Option<String>,
    pub mime_type_camel: Option<String>,
    pub mime_type_snake: Option<String>,
    pub width: Option<u32>,
    pub height: Option<u32>,
}

/// One segment of the older durl format.
#[derive(Debug)]
pub struct DurlData {
    pub url: String,
    pub backup_url_camel: Option<Vec<String>>,
    pub backup_url_snake: Option<Vec<String>>,
}

/// The views of a sequence of strings.
pub open spec fn strings_view(v: Seq<String>) -> Seq<Seq<char>> {
    v.map_values(|s: String| s@)
}

/// The first of two optional values that is present (`Option::or`).
pub open spec fn first_present<A>(a: Option<A>, b: Option<A>) -> Option<A> {
    if a is Some {
        a
    } else {
        b
    }
}

/// The backup URLs that the API gave, camel case preferred.
pub open spec fn backup_urls_view(
    camel: Option<Vec<String>>,
    snake: Option<Vec<String>>,
) -> Seq<Seq<char>> {
    match first_present(camel, snake) {
        Some(list) => strings_view(list@),
        None => Seq::empty(),
    }
}

impl DashStream {
    /// The URLs of the stream: the base URL (camel case preferred), then the backup URLs.
    pub open spec fn spec_urls(&self) -> Seq<Seq<char>> {
        let base = match first_present(self.base_url_camel, self.base_url_snake) {
            Some(url) => seq![url@],
            None => Seq::empty(),
        };
        base + backup_urls_view(self.backup_url_camel, self.backup_url_snake)
    }

    /// The MIME type, camel case preferred.
    pub open spec fn spec_mime_type(&self) -> Option<Seq<char>> {
        match first_present(self.mime_type_camel, self.mime_type_snake) {
            Some(m) => Some(m@),
            None => None,
        }
    }

    /// All URLs to try, in order.
    pub fn urls(&self) -> (urls: Vec<String>)
        ensures
            strings_view(urls@) == self.spec_urls(),
    {
        let mut urls: Vec<String> = Vec::new();
        let base = match &self.base_url_camel {
            Some(url) => Some(url),
            None => self.base_url_snake.as_ref(),
        };
        if let Some(url) = base {
            urls.push(url.clone());
        }
        let backups = match &self.backup_url_camel {
            Some(list) => Some(list),
            None => self.backup_url_snake.as_ref(),
        };
        if let Some(list) = backups {
            append_strings(&mut urls, list);
        }
        proof {
            assert(strings_view(urls@) =~= self.spec_urls());
        }
        urls
    }

    /// The MIME type of the stream, if the API gave one.
    pub fn mime_type(&self) -> (m: Option<&str>)
        ensures
            m matches Some(s) ==> self.spec_mime_type() == Some(s@),
            m is None ==> self.spec_mime_type() is None,
    {
        match &self.mime_type_camel {
            Some(s) => Some(s.as_str()),
            None => match &self.mime_type_snake {
                Some(s) => Some(s.as_str()),
                None => None,
            },
        }
    }
}

impl DurlData {
    /// The URLs of the segment: the main URL, then the backup URLs.
    pub open spec fn spec_urls(&self) -> Seq<Seq<char>> {
        seq![self.url@] + backup_urls_view(self.backup_url_camel, self.backup_url_snake)
    }

    /// All URLs to try, in order.
    pub fn urls(&self) -> (urls: Vec<String>)
        ensures
            strings_view(urls@) == self.spec_urls(),
    {
        let mut urls: Vec<String> = Vec::new();
        urls.push(self.url.clone());
        let backups = match &self.backup_url_camel {
            Some(list) => Some(list),
            None => self.backup_url_snake.as_ref(),
        };
        if let Some(list) = backups {
            append_strings(&mut urls, list);
        }
        proof {
            assert(strings_view(urls@) =~= self.spec_urls());
        }
        urls
    }
}

/// Appends copies of the strings of `list`.
pub fn append_strings(out: &mut Vec<String>, list: &Vec<String>)
    ensures
        strings_view(final(out)@) == strings_view(old(out)@) + strings_view(list@),
{
    let mut i: usize = 0;
    while i < list.len()
        invariant
            i <= list@.len(),
            strings_view(out@) =~= strings_view(old(out)@) + strings_view(list@).take(i as int),
        decreases list.len() - i,
    {
        let item = list[i].clone();
        let ghost prev = out@;
        out.push(item);
        proof {
            assert(item@ == list@[i as int]@);
            assert(strings_view(out@) =~= strings_view(prev).push(list@[i as int]@));
            assert(strings_view(list@).take(i + 1) =~= strings_view(list@).take(i as int).push(
                list@[i as int]@,
            ));
        }
        i = i + 1;
    }
    proof {
        assert(strings_view(list@).take(list@.len() as int) =~= strings_view(list@));
    }
}

} // verus!
