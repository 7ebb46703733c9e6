//! The language-neutral application: a routing table and its settings.
//! Serving it over HTTP is the host's part.

use vstd::prelude::*;

use crate::router::{pattern_of, Router, SegmentView};
use crate::settings::{Settings, SettingsView};
use crate::text::unicode_upper;

verus! {

/// Routes and settings of one application.
pub struct App<H> {
    router: Router<H>,
    settings: Settings,
}

impl<H> App<H> {
    /// The routes as text, in registration order.
    pub closed spec fn table(&self) -> Seq<(Seq<char>, Seq<SegmentView>)> {
        self.router.table()
    }

    /// The handlers, in registration order.
    pub closed spec fn handlers(&self) -> Seq<H> {
        self.router.handlers()
    }

    /// The settings.
    pub closed spec fn settings_view(&self) -> SettingsView {
        self.settings@
    }

    /// No routes and empty settings.
    pub fn new() -> (a: App<H>)
        ensures
            a.table() == Seq::<(Seq<char>, Seq<SegmentView>)>::empty(),
            a.handlers() == Seq::<H>::empty(),
            a.settings_view().config == Map::<Seq<char>, crate::json::Json>::empty(),
            a.settings_view().env_name == "dev"@,
            !a.settings_view().loaded,
    {
        App { router: Router::new(), settings: Settings::new() }
    }

    /// No routes, with `settings`.
    pub fn with_settings(settings: Settings) -> (a: App<H>)
        ensures
            a.table() == Seq::<(Seq<char>, Seq<SegmentView>)>::empty(),
            a.handlers() == Seq::<H>::empty(),
            a.settings_view() == settings@,
    {
        App { router: Router::new(), settings }
    }

    /// The settings.
    pub fn settings(&self) -> (s: &Settings)
        ensures
            s@ == self.settings_view(),
    {
        &self.settings
    }

    /// The settings, to change them in place.
    pub fn settings_mut(&mut self) -> (s: &mut Settings)
        ensures
            (*s)@ == old(self).settings_view(),
            final(self).settings_view() == (*final(s))@,
            final(self).table() == old(self).table(),
            final(self).handlers() == old(self).handlers(),
    {
        &mut self.settings
    }

    /// Registers `handler` for `method` on the pattern `path`.
    pub fn route(&mut self, method: &str, path: &str, handler: H)
        ensures
            final(self).table() == old(self).table().push((unicode_upper(method@), pattern_of(path@))),
            final(self).handlers() == old(self).handlers().push(handler),
            final(self).settings_view() == old(self).settings_view(),
    {
        self.router.route(method, path, handler);
    }

    /// The routing table.
    pub fn router(&self) -> (r: &Router<H>)
        ensures
            r.table() == self.table(),
            r.handlers() == self.handlers(),
    {
        &self.router
    }

    /// The routing table, without the settings.
    pub fn into_router(self) -> (r: Router<H>)
        ensures
            r.table() == self.table(),
            r.handlers() == self.handlers(),
    {
        self.router
    }
}

impl<H> Default for App<H> {
    fn default() -> (a: Self)
        ensures
            a.table() == Seq::<(Seq<char>, Seq<SegmentView>)>::empty(),
            a.handlers() == Seq::<H>::empty(),
            a.settings_view().env_name == "dev"@,
            !a.settings_view().loaded,
    {
        App::new()
    }
}

} // verus!
