//! What the origin does by itself: how it begins, and what it does when time
//! passes.

use crate::config::{unattended_secret, Config};
use crate::device::{devices, Device};
use crate::input::{pick_display, picked, screens, DisplayInfo, Screen};
use crate::json::array_text;
use crate::otp::{is_pin, GateState, OtpGate, Reading};
use crate::capture::SECOND;
use crate::publisher::{Publisher, PublisherState};
use crate::server::{emit, fxs, App, AppState, Effect, Fx};
use crate::inbound::{catalog, catalog_text};
use crate::text::{append, texts};
use crate::voice::MIC_DUCK_HOLD;
use vstd::prelude::*;

verus! {

/// How old the last picture is taken to be where there was none.
pub const NO_MEDIA_AGE: u64 = 99_000_000_000;

/// After a wake, a picture younger than this shows that nothing is wrong.
pub const WAKE_FRESH: u64 = 3_000_000_000;

/// The state with which the origin begins.
pub open spec fn begun(c: crate::config::ConfigFacts, displays: Seq<Screen>) -> AppState {
    AppState {
        cfg: c,
        controller: None,
        png: None,
        last_clip: Seq::empty(),
        chat: Seq::empty(),
        last_voice: None,
        displays,
        publisher: PublisherState {
            url: c.cloudflare.publish_url,
            token: c.token,
            latest: Seq::empty(),
            backoff: SECOND as int,
            skips: 0,
        },
        otp: GateState {
            pin: None,
            unattended: if c.access.unattended {
                c.access.password_hash
            } else {
                Seq::empty()
            },
            sessions: Map::empty(),
            fails: 0,
            lock_until: None,
        },
    }
}

impl AppState {
    /// The microphone is heard again once no watcher has spoken for a while.
    pub open spec fn unducked(self, now: u64) -> (AppState, Seq<Fx>) {
        match self.last_voice {
            Some(t) => if now >= t && now - t >= MIC_DUCK_HOLD {
                (AppState { last_voice: None, ..self }, seq![Fx::Duck(false)])
            } else {
                (self, Seq::empty())
            },
            None => (self, Seq::empty()),
        }
    }

    /// The machine woke up: unless a picture came just now, capture and
    /// publishing begin anew.
    pub open spec fn woken(self, age: Option<u64>) -> (AppState, Seq<Fx>) {
        if crate::json::or(age, NO_MEDIA_AGE) < WAKE_FRESH {
            (self, Seq::empty())
        } else {
            (
                AppState { publisher: self.publisher.configured(self.cfg).started(), ..self },
                seq![Fx::Recapture, Fx::RestartPublisher, Fx::Status],
            )
        }
    }

    /// One look around: the host took back control, the machine woke up, no
    /// watcher speaks any more.
    pub open spec fn ticked(self, unlocked: bool, woke: bool, age: Option<u64>, now: u64) -> (
        AppState,
        Seq<Fx>,
    ) {
        let a = if unlocked {
            self.ended(false)
        } else {
            (self, Seq::empty())
        };
        let b = if woke {
            a.0.woken(age)
        } else {
            (a.0, Seq::empty())
        };
        let c = b.0.unducked(now);
        (c.0, a.1 + b.1 + c.1)
    }
}

impl App {
    /// An origin that nobody watches yet, with these settings and displays.
    pub fn new(cfg: Config, displays: Vec<Device>, out: &mut Vec<Effect>) -> (app: App)
        ensures
            app@ == begun(cfg@, devices(displays@)),
            fxs(final(out)@) == fxs(old(out)@) + begun(cfg@, devices(displays@)).privacy(),
    {
        let publisher = Publisher::new(&cfg);
        let mut otp = OtpGate::new();
        otp.set_unattended(unattended_secret(&cfg));
        let ghost facts = cfg@;
        let ghost shown = devices(displays@);
        let app = App {
            cfg,
            controller: None,
            incoming_png: None,
            last_clip: String::new(),
            chat_log: Vec::new(),
            last_voice: None,
            displays,
            publisher,
            otp,
        };
        assert(texts(app.chat_log@) =~= Seq::empty());
        assert(app@ =~= begun(facts, shown));
        app.sync_session_privacy(out);
        app
    }

    /// The displays that were found take the place of those known.
    pub fn refresh_displays(&mut self, found: Vec<Device>)
        ensures
            final(self)@ == (AppState { displays: devices(found@), ..old(self)@ }),
    {
        self.displays = found;
        assert(self@ =~= (AppState { displays: devices(found@), ..old(self)@ }));
    }

    /// The display that is captured, by which the injector maps its
    /// coordinates, among those that were found.
    pub fn apply_display(&mut self, input: &str, found: Vec<Device>) -> (r: Option<DisplayInfo>)
        ensures
            final(self)@ == (AppState { displays: devices(found@), ..old(self)@ }),
            match r {
                Some(d) => picked(devices(found@), input@) == Some(d@),
                None => picked(devices(found@), input@) is None,
            },
    {
        let mut infos: Vec<DisplayInfo> = Vec::new();
        let ghost all = devices(found@);
        let mut i: usize = 0;
        assert(screens(infos@) =~= all.take(0));
        while i < found.len()
            invariant
                i <= found@.len(),
                all == devices(found@),
                screens(infos@) == all.take(i as int),
            decreases found@.len() - i,
        {
            let ghost before = screens(infos@);
            infos.push(found[i].as_info());
            assert(screens(infos@) =~= before.push(all[i as int]));
            assert(all.take(i + 1) =~= all.take(i as int).push(all[i as int]));
            i += 1;
        }
        assert(all.take(all.len() as int) =~= all);
        self.refresh_displays(found);
        match pick_display(input, &infos) {
            Some(d) => Some(d.copy()),
            None => None,
        }
    }

    /// What a model is asked: the task with the displays there are. Nothing
    /// where no model may act.
    pub fn task_text(&self, task: &str) -> (r: Option<String>)
        ensures
            match r {
                Some(t) => self@.cfg.control.ai_enabled && t@ == task@ + "\n[displays]="@
                    + array_text(catalog(self@.displays)),
                None => !self@.cfg.control.ai_enabled,
            },
    {
        if !self.cfg.control.ai_enabled {
            return None;
        }
        let mut t = task.to_owned();
        append(&mut t, "\n[displays]=");
        append(&mut t, catalog_text(&self.displays).as_str());
        Some(t)
    }

    pub fn maybe_unduck_mic(&mut self, now: u64, out: &mut Vec<Effect>)
        ensures
            final(self)@ == old(self)@.unducked(now).0,
            fxs(final(out)@) == fxs(old(out)@) + old(self)@.unducked(now).1,
    {
        let ghost before = fxs(out@);
        if let Some(t) = self.last_voice {
            if now >= t && now - t >= MIC_DUCK_HOLD {
                self.last_voice = None;
                emit(out, Effect::Duck(false));
                assert(self@ =~= old(self)@.unducked(now).0);
            }
        }
        assert(fxs(out@) =~= before + old(self)@.unducked(now).1);
    }

    /// Lid-open / wake: recapture and republish immediately instead of waiting
    /// for a stall. `age` is how old the last picture is.
    pub fn handle_system_wake(&mut self, age: Option<u64>, out: &mut Vec<Effect>)
        ensures
            final(self)@ == old(self)@.woken(age).0,
            fxs(final(out)@) == fxs(old(out)@) + old(self)@.woken(age).1,
    {
        let ghost before = fxs(out@);
        let old_age: u64 = match age {
            Some(a) => a,
            None => NO_MEDIA_AGE,
        };
        if old_age < WAKE_FRESH {
            assert(fxs(out@) =~= before + old(self)@.woken(age).1);
            return;
        }
        emit(out, Effect::Recapture);
        self.publisher.set_config(&self.cfg);
        self.publisher.start();
        emit(out, Effect::RestartPublisher);
        emit(out, Effect::Status);
        assert(self@ =~= old(self)@.woken(age).0);
        assert(fxs(out@) =~= before + old(self)@.woken(age).1);
    }

    /// One look around: `unlocked` says that the host took back control, `woke`
    /// that the machine woke up.
    pub fn tick(
        &mut self,
        unlocked: bool,
        woke: bool,
        age: Option<u64>,
        now: u64,
        out: &mut Vec<Effect>,
    )
        ensures
            final(self)@ == old(self)@.ticked(unlocked, woke, age, now).0,
            fxs(final(out)@) == fxs(old(out)@) + old(self)@.ticked(unlocked, woke, age, now).1,
    {
        let ghost before = fxs(out@);
        if unlocked {
            self.release_controller(out);
        }
        if woke {
            self.handle_system_wake(age, out);
        }
        self.maybe_unduck_mic(now, out);
        assert(fxs(out@) =~= before + old(self)@.ticked(unlocked, woke, age, now).1);
    }

    /// Keeps a PIN in force; a new one is announced.
    pub fn tick_pin(&mut self, at: Reading, out: &mut Vec<Effect>)
        requires
            at.in_range(),
        ensures
            match old(self)@.otp.live_pin(at.now as int) {
                Some(_) => final(self)@ == old(self)@ && fxs(final(out)@) == fxs(old(out)@),
                None => {
                    &&& final(self)@ == (AppState { otp: final(self)@.otp, ..old(self)@ })
                    &&& final(self)@.otp.pin is Some
                    &&& final(self)@.otp == old(self)@.otp.with_pin(
                        final(self)@.otp.pin->Some_0.pin,
                        at,
                    )
                    &&& is_pin(final(self)@.otp.pin->Some_0.pin)
                    &&& fxs(final(out)@) == fxs(old(out)@).push(Fx::Announce)
                },
            },
    {
        let live = self.otp.current_pin(at.now).is_some();
        let _ = self.otp.ensure_current(at);
        if !live {
            emit(out, Effect::Announce);
        }
    }

    /// Capture and publishing begin.
    pub fn start_background(&mut self, at: Reading, out: &mut Vec<Effect>)
        requires
            at.in_range(),
        ensures
            final(self)@ == (AppState {
                otp: final(self)@.otp,
                publisher: old(self)@.publisher.started(),
                ..old(self)@
            }),
            match old(self)@.otp.live_pin(at.now as int) {
                Some(_) => final(self)@.otp == old(self)@.otp,
                None => final(self)@.otp.pin is Some && final(self)@.otp == old(
                    self,
                )@.otp.with_pin(final(self)@.otp.pin->Some_0.pin, at) && is_pin(
                    final(self)@.otp.pin->Some_0.pin,
                ),
            },
            fxs(final(out)@) == fxs(old(out)@) + seq![
                Fx::Capture,
                Fx::ApplyDisplay(old(self)@.cfg.capture.input),
                Fx::Announce,
                Fx::RestartPublisher,
            ],
    {
        let ghost before = fxs(out@);
        emit(out, Effect::Capture);
        emit(out, Effect::ApplyDisplay(self.cfg.capture.input.clone()));
        let _ = self.otp.ensure_current(at);
        emit(out, Effect::Announce);
        self.publisher.start();
        emit(out, Effect::RestartPublisher);
        assert(fxs(out@) =~= before + seq![
            Fx::Capture,
            Fx::ApplyDisplay(old(self)@.cfg.capture.input),
            Fx::Announce,
            Fx::RestartPublisher,
        ]);
    }
}

/// The host takes back control at its own keyboard: nobody drives any more,
/// and the host is not locked.
pub proof fn local_unlock_frees_the_host(s: AppState, woke: bool, age: Option<u64>, now: u64)
    ensures
        s.ticked(true, woke, age, now).0.controller is None,
        forall|i: int|
            0 <= i < s.ticked(true, woke, age, now).1.len() ==> !((#[trigger] s.ticked(
                true,
                woke,
                age,
                now,
            ).1[i]) is Inject),
{
}

/// A silent microphone is given back its loudness after three quarters of a
/// second, once.
pub proof fn silence_ends_the_duck(s: AppState, now: u64)
    ensures
        ({
            let (r, fx) = s.unducked(now);
            &&& s.last_voice is None ==> r == s && fx.len() == 0
            &&& s.last_voice matches Some(t) ==> (now >= t + 750_000_000 ==> r == (AppState {
                last_voice: None,
                ..s
            }) && fx == seq![Fx::Duck(false)])
            &&& s.last_voice matches Some(t) ==> (now < t + 750_000_000 ==> r == s && fx.len() == 0)
            &&& r.unducked(now) == (r, Seq::<Fx>::empty())
        }),
{
}

/// After a sleep capture and publishing start anew, unless a picture came within
/// three seconds.
pub proof fn a_wake_starts_anew(s: AppState, age: Option<u64>)
    ensures
        ({
            let (r, fx) = s.woken(age);
            let fresh = age matches Some(a) && a < 3_000_000_000;
            &&& fresh ==> r == s && fx.len() == 0
            &&& !fresh ==> fx == seq![Fx::Recapture, Fx::RestartPublisher, Fx::Status]
                && r.publisher.backoff == 1_000_000_000 && r.publisher.url
                == s.cfg.cloudflare.publish_url && r.publisher.token == s.cfg.token
            &&& r == (AppState { publisher: r.publisher, ..s })
        }),
{
}

/// A tick does what is due and nothing else.
pub proof fn a_quiet_tick_does_nothing(s: AppState, age: Option<u64>, now: u64)
    ensures
        s.last_voice is None ==> s.ticked(false, false, age, now) == (s, Seq::<Fx>::empty()),
        s.ticked(false, true, age, now).1 == s.woken(age).1 + s.woken(age).0.unducked(now).1,
        s.ticked(false, false, age, now) == s.unducked(now),
{
    let none = Seq::<Fx>::empty();
    assert(none + none + none =~= none);
    assert(none + s.woken(age).1 + s.woken(age).0.unducked(now).1 =~= s.woken(age).1 + s.woken(
        age,
    ).0.unducked(now).1);
    assert(none + none + s.unducked(now).1 =~= s.unducked(now).1);
}

/// An origin begins with nobody in control, nothing said and no session; the
/// password opens only where unattended access is on.
pub proof fn beginnings_are_empty(c: crate::config::ConfigFacts, displays: Seq<Screen>)
    ensures
        ({
            let s = begun(c, displays);
            &&& s.cfg == c && s.displays == displays
            &&& s.controller is None && s.png is None && s.last_voice is None
            &&& s.chat.len() == 0 && s.last_clip.len() == 0
            &&& s.otp.pin is None && s.otp.fails == 0 && s.otp.lock_until is None
            &&& s.otp.sessions == Map::<Seq<char>, u64>::empty()
            &&& c.access.unattended ==> s.otp.unattended == c.access.password_hash
            &&& !c.access.unattended ==> s.otp.unattended.len() == 0
            &&& s.publisher.latest.len() == 0 && s.publisher.skips == 0 && s.publisher.backoff
                == 1_000_000_000
            &&& s.publisher.url == c.cloudflare.publish_url && s.publisher.token == c.token
        }),
{
}

} // verus!
