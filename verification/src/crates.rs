//! The crates of the registry: which of a listing are downloaded, from
//! where, and into which directory. The caller talks to the registry.

use vstd::prelude::*;
use vstd::string::StringExecFns;
use crate::attr_cleaning::CleanError;
use crate::lint_run::{is_one_of, names_one_of};
use crate::text::{decimal, push_char, push_decimal, same_text};

verus! {

/// The most crates that the registry lists on one page.
pub const CRATES_IO_MAX_PER_PAGE: usize = 100;

/// The least time between two requests to the registry, in milliseconds.
pub const MIN_MILLIS_BETWEEN: u64 = 1000;

/// A crate as the registry lists it.
pub struct Crate {
    pub name: String,
    pub max_version: String,
    pub max_stable_version: Option<String>,
}

impl Crate {
    /// The version to download: the newest stable one, or the newest where
    /// none is stable.
    pub open spec fn chosen_version(self) -> Seq<char> {
        match self.max_stable_version {
            Some(version) => version@,
            None => self.max_version@,
        }
    }

    /// The version to download.
    pub fn version(&self) -> (version: &str)
        ensures
            version@ == self.chosen_version(),
    {
        match &self.max_stable_version {
            Some(version) => version.as_str(),
            None => self.max_version.as_str(),
        }
    }

    /// Whether the crate is to be downloaded: it is not yanked, which the
    /// registry shows by the version 0.0.0, and it is not excluded.
    pub open spec fn wanted(self, exclude: Seq<String>) -> bool {
        self.max_version@ != "0.0.0"@ && !names_one_of(self.name@, exclude)
    }

    /// Decides `wanted`.
    pub fn is_wanted(&self, exclude: &Vec<String>) -> (r: bool)
        ensures
            r == self.wanted(exclude@),
    {
        !same_text(self.max_version.as_str(), "0.0.0") && !is_one_of(self.name.as_str(), exclude)
    }

    /// The directory that the crate unpacks into: its name, a hyphen, its
    /// version.
    pub fn directory_name(&self) -> (name: String)
        ensures
            name@ == self.name@ + seq!['-'] + self.chosen_version(),
    {
        let mut name = self.name.clone();
        push_char(&mut name, '-');
        name.append(self.version());
        name
    }

    /// Where the crate is downloaded from.
    pub fn download_url(&self) -> (url: String)
        ensures
            url@ == "https://static.crates.io/crates/"@ + self.name@ + seq!['/'] + self.name@
                + seq!['-'] + self.chosen_version() + ".crate"@,
    {
        let mut url = String::from_str("https://static.crates.io/crates/");
        url.append(self.name.as_str());
        push_char(&mut url, '/');
        url.append(self.name.as_str());
        push_char(&mut url, '-');
        url.append(self.version());
        url.append(".crate");
        url
    }
}

/// Where the page numbered `page` of the listing by downloads is asked
/// for.
pub fn page_url(page: usize) -> (url: String)
    ensures
        url@ == "https://crates.io/api/v1/crates?page="@ + decimal(page as nat) + "&per_page="@
            + decimal(CRATES_IO_MAX_PER_PAGE as nat) + "&sort=downloads"@,
{
    let mut url = String::from_str("https://crates.io/api/v1/crates?page=");
    push_decimal(&mut url, page);
    url.append("&per_page=");
    push_decimal(&mut url, CRATES_IO_MAX_PER_PAGE);
    url.append("&sort=downloads");
    url
}

/// The places in a page of the crates that are to be downloaded, in the
/// order of the page.
pub open spec fn wanted_places(page: Seq<Crate>, exclude: Seq<String>) -> Seq<int>
    decreases page.len(),
{
    if page.len() == 0 {
        Seq::empty()
    } else if page.last().wanted(exclude) {
        wanted_places(page.drop_last(), exclude).push(page.len() - 1)
    } else {
        wanted_places(page.drop_last(), exclude)
    }
}

/// Picks from a page of the listing the crates that are to be downloaded:
/// those that are neither yanked nor excluded, in the order of the page.
/// Each is given by its place in the page.
pub fn list_crates(page: &Vec<Crate>, exclude: &Vec<String>) -> (places: Vec<usize>)
    ensures
        places@.map_values(|place: usize| place as int) == wanted_places(page@, exclude@),
{
    let mut places: Vec<usize> = Vec::new();
    let mut index: usize = 0;
    assert(places@.map_values(|place: usize| place as int) =~= wanted_places(
        page@.take(0),
        exclude@,
    ));
    while index < page.len()
        invariant
            index <= page.len(),
            places@.map_values(|place: usize| place as int) == wanted_places(
                page@.take(index as int),
                exclude@,
            ),
        decreases page.len() - index,
    {
        proof {
            let upto = page@.take(index + 1);
            assert(upto.drop_last() == page@.take(index as int));
            assert(upto.last() == page@[index as int]);
        }
        let ghost before = places@.map_values(|place: usize| place as int);
        if page[index].is_wanted(exclude) {
            places.push(index);
            assert(places@.map_values(|place: usize| place as int) =~= before.push(index as int));
        }
        index = index + 1;
    }
    assert(page@.take(index as int) == page@);
    places
}

/// How long to wait before the next request when the last one was
/// `elapsed` milliseconds ago, in milliseconds: what is missing to the
/// least time between two requests.
pub fn pause_before_request(elapsed: u128) -> (pause: u64)
    ensures
        pause == if elapsed < MIN_MILLIS_BETWEEN {
            MIN_MILLIS_BETWEEN - elapsed
        } else {
            0
        },
{
    if elapsed < MIN_MILLIS_BETWEEN as u128 {
        MIN_MILLIS_BETWEEN - elapsed as u64
    } else {
        0
    }
}

/// What is said of a crate that the registry lists a second time.
pub fn listed_twice_message(name: &str) -> (message: String)
    ensures
        message@ == "Skipping '"@ + name@
            + "'. Listed twice by crates.io. (Possibly the changed position during downloading.)"@,
{
    let mut message = String::from_str("Skipping '");
    message.append(name);
    message.append(
        "'. Listed twice by crates.io. (Possibly the changed position during downloading.)",
    );
    message
}

/// What is said of a file whose attributes could not be cleaned: where the
/// parser stopped, and why.
pub fn attr_error_message(path: &str, error: &CleanError) -> (message: String)
    ensures
        message@ == "error: Attribute removal failed at "@ + path@ + seq![':'] + decimal(
            error.line as nat,
        ) + seq![':'] + decimal(error.column as nat) + " - "@ + error.message@,
{
    let mut message = String::from_str("error: Attribute removal failed at ");
    message.append(path);
    push_char(&mut message, ':');
    push_decimal(&mut message, error.line);
    push_char(&mut message, ':');
    push_decimal(&mut message, error.column);
    message.append(" - ");
    message.append(error.message.as_str());
    message
}

} // verus!
