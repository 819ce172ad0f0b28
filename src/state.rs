use vstd::prelude::*;

use crate::requests::DateEntry;
use crate::series::{SeriesPoint, WeatherSnapshot};

verus! {

/// What the user interface observes: the series on screen, the date they
/// belong to, the dates on offer, and whether a refresh is in flight.
#[derive(Debug)]
pub struct ApplicationData {
    pub temperature: Vec<SeriesPoint>,
    pub humidity: Vec<SeriesPoint>,
    pub current_date: String,
    pub available_dates: Vec<DateEntry>,
    pub processing: bool,
}

/// What happens to the state: the user asks for a refresh, the user selects
/// another date, or a fetch started earlier delivers its snapshot.
#[derive(Debug)]
pub enum Event {
    Refresh,
    SelectDate(String),
    Delivered(WeatherSnapshot),
}

/// The state after one event.
pub open spec fn step(s: ApplicationData, ev: Event) -> ApplicationData {
    match ev {
        Event::Refresh => ApplicationData { processing: true, ..s },
        Event::SelectDate(date) => ApplicationData { current_date: date, processing: true, ..s },
        Event::Delivered(snap) => ApplicationData {
            temperature: snap.temperature,
            humidity: snap.humidity,
            processing: false,
            ..s
        },
    }
}

/// The state after a run of events, applied in the order they happened.
pub open spec fn run(s: ApplicationData, evs: Seq<Event>) -> ApplicationData
    decreases evs.len(),
{
    if evs.len() == 0 {
        s
    } else {
        step(run(s, evs.drop_last()), evs.last())
    }
}

/// The snapshot of the last delivery among `evs`, if any.
pub open spec fn last_delivery(evs: Seq<Event>) -> Option<WeatherSnapshot>
    decreases evs.len(),
{
    if evs.len() == 0 {
        None
    } else {
        match evs.last() {
            Event::Delivered(snap) => Some(snap),
            Event::Refresh => last_delivery(evs.drop_last()),
            Event::SelectDate(_) => last_delivery(evs.drop_last()),
        }
    }
}

impl ApplicationData {
    /// The state at start-up: no series yet, no dates on offer, idle, showing
    /// `current_date`.
    pub fn new(current_date: String) -> (r: ApplicationData)
        ensures
            r.temperature@.len() == 0,
            r.humidity@.len() == 0,
            r.available_dates@.len() == 0,
            r.current_date == current_date,
            !r.processing,
    {
        ApplicationData {
            temperature: Vec::new(),
            humidity: Vec::new(),
            current_date,
            available_dates: Vec::new(),
            processing: false,
        }
    }

    /// Applies one event. A refresh marks the state as fetching and returns the
    /// current date to fetch; selecting a date makes it current, marks the
    /// state as fetching and returns that date to fetch; a delivery swaps in
    /// its series and marks the state idle.
    pub fn handle_event(&mut self, ev: Event) -> (r: Option<String>)
        ensures
            *final(self) == step(*old(self), ev),
            ev is Refresh ==> (r matches Some(d) && d@ == old(self).current_date@),
            ev matches Event::SelectDate(date) ==> (r matches Some(d) && d@ == date@),
            ev is Delivered ==> r is None,
    {
        match ev {
            Event::Refresh => {
                self.processing = true;
                Some(self.current_date.clone())
            },
            Event::SelectDate(date) => {
                let fetch = date.clone();
                self.current_date = date;
                self.processing = true;
                Some(fetch)
            },
            Event::Delivered(snap) => {
                self.temperature = snap.temperature;
                self.humidity = snap.humidity;
                self.processing = false;
                None
            },
        }
    }

    /// Replaces the dates on offer.
    pub fn set_available_dates(&mut self, dates: Vec<DateEntry>)
        ensures
            final(self).available_dates == dates,
            final(self).temperature == old(self).temperature,
            final(self).humidity == old(self).humidity,
            final(self).current_date == old(self).current_date,
            final(self).processing == old(self).processing,
    {
        self.available_dates = dates;
    }
}

/// Last delivery wins: after any run of events, the series on screen are those
/// of the snapshot delivered last, whatever order the refreshes were issued
/// in; with no delivery at all they are the initial ones.
pub proof fn lemma_last_delivery_wins(s: ApplicationData, evs: Seq<Event>)
    ensures
        last_delivery(evs) matches Some(snap) ==> {
            &&& run(s, evs).temperature == snap.temperature
            &&& run(s, evs).humidity == snap.humidity
        },
        last_delivery(evs) is None ==> {
            &&& run(s, evs).temperature == s.temperature
            &&& run(s, evs).humidity == s.humidity
        },
    decreases evs.len(),
{
    if evs.len() > 0 {
        lemma_last_delivery_wins(s, evs.drop_last());
    }
}

/// A delivery leaves the state idle, and a refresh or a date selection leaves
/// it fetching; only a date selection changes the selected date, and no event
/// touches the dates on offer.
pub proof fn lemma_step_flags(s: ApplicationData, ev: Event)
    ensures
        step(s, ev).processing == !(ev is Delivered),
        ev matches Event::SelectDate(date) ==> step(s, ev).current_date == date,
        !(ev is SelectDate) ==> step(s, ev).current_date == s.current_date,
        step(s, ev).available_dates == s.available_dates,
{
}

} // verus!
