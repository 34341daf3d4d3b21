//! Where to look for the ffmpeg executable, and in which order.
use vstd::prelude::*;

verus! {

/// The file name of the executable.
pub fn executable_name(windows: bool) -> (r: &'static str)
    ensures
        r@ == if windows { "ffmpeg.exe"@ } else { "ffmpeg"@ },
{
    if windows {
        "ffmpeg.exe"
    } else {
        "ffmpeg"
    }
}

/// A place where ffmpeg may be.
#[derive(Debug, Clone, Copy, PartialEq, Eq, Structural)]
pub enum Place {
    /// Somewhere on the search path.
    OnPath,
    /// The working directory.
    WorkingFolder,
    /// The folder of the running program.
    ProgramFolder,
    /// The resources folder of an application bundle.
    Resources,
}

/// What was found at a place.
#[derive(Debug, Clone, Copy, PartialEq, Eq, Structural)]
pub enum Finding {
    /// The executable is there.
    Present,
    /// The executable is not there.
    Absent,
    /// The place itself is not known.
    Unknown,
}

/// What to do next.
#[derive(Debug, Clone, Copy, PartialEq, Eq, Structural)]
pub enum Search {
    /// Look at this place.
    Look(Place),
    /// Use the executable at this place.
    Found(Place),
    /// There is none to use.
    Missing,
}

/// What each place holds.
pub ghost struct Places {
    pub on_path: Finding,
    pub working_folder: Finding,
    pub program_folder: Finding,
    pub resources: Finding,
}

impl Places {
    /// What `place` holds.
    pub open spec fn at(self, place: Place) -> Finding {
        match place {
            Place::OnPath => self.on_path,
            Place::WorkingFolder => self.working_folder,
            Place::ProgramFolder => self.program_folder,
            Place::Resources => self.resources,
        }
    }
}

/// What follows from a finding at `place`. Only a bundled application has a resources folder.
pub open spec fn follows(place: Place, finding: Finding, bundled: bool) -> Search {
    if finding == Finding::Present {
        Search::Found(place)
    } else {
        match place {
            Place::OnPath => Search::Look(Place::WorkingFolder),
            Place::WorkingFolder => if finding == Finding::Absent {
                Search::Look(Place::ProgramFolder)
            } else {
                Search::Missing
            },
            Place::ProgramFolder => if finding == Finding::Absent && bundled {
                Search::Look(Place::Resources)
            } else {
                Search::Missing
            },
            Place::Resources => Search::Missing,
        }
    }
}

/// Where the search begins.
pub fn search_start() -> (r: Search)
    ensures
        r == Search::Look(Place::OnPath),
{
    Search::Look(Place::OnPath)
}

/// What to do after looking at `place`.
pub fn search_next(place: Place, finding: Finding, bundled: bool) -> (r: Search)
    ensures
        r == follows(place, finding, bundled),
{
    match finding {
        Finding::Present => Search::Found(place),
        Finding::Absent => match place {
            Place::OnPath => Search::Look(Place::WorkingFolder),
            Place::WorkingFolder => Search::Look(Place::ProgramFolder),
            Place::ProgramFolder => if bundled {
                Search::Look(Place::Resources)
            } else {
                Search::Missing
            },
            Place::Resources => Search::Missing,
        },
        Finding::Unknown => match place {
            Place::OnPath => Search::Look(Place::WorkingFolder),
            _ => Search::Missing,
        },
    }
}

/// How many places are looked at after `place`, at most.
pub open spec fn places_left(place: Place) -> nat {
    match place {
        Place::OnPath => 3,
        Place::WorkingFolder => 2,
        Place::ProgramFolder => 1,
        Place::Resources => 0,
    }
}

/// How a search that is about to look at `place` ends.
pub open spec fn search_ends(place: Place, places: Places, bundled: bool) -> Search
    decreases places_left(place),
{
    match follows(place, places.at(place), bundled) {
        Search::Look(next) => search_ends(next, places, bundled),
        end => end,
    }
}

/// The search ends at the first place that holds the executable, in the order search path,
/// working directory, program folder, resources. A place that is not known ends it without one,
/// except that the search path is only tried.
pub proof fn the_first_place_that_has_it_is_used(places: Places, bundled: bool)
    ensures
        search_ends(Place::OnPath, places, bundled) == (if places.on_path == Finding::Present {
            Search::Found(Place::OnPath)
        } else if places.working_folder == Finding::Present {
            Search::Found(Place::WorkingFolder)
        } else if places.working_folder == Finding::Unknown {
            Search::Missing
        } else if places.program_folder == Finding::Present {
            Search::Found(Place::ProgramFolder)
        } else if places.program_folder == Finding::Absent && bundled && places.resources
            == Finding::Present {
            Search::Found(Place::Resources)
        } else {
            Search::Missing
        }),
{
    reveal_with_fuel(search_ends, 5);
}

} // verus!
