//! The score model: phrase, chain, track and song.
//!
//! Symbolic note data is queried by sixteenth-note tick.  A phrase maps a
//! tick to a note symbol at its own subdivision; a chain strings phrases
//! together and wraps the tick around its total length; a track selects one
//! chain at a time with no wraparound across chains; a song queries up to
//! four tracks — one per gameplay lane — in one call.  A hit note builds a
//! brand-new generator graph from the phrase's instrument, pitched on the
//! volt-per-octave scale.

use vstd::prelude::*;

verus! {

use crate::generator::{
    clamp_frequency, cutoff_c_q16, ms_samples, Attenuator, Envelope, NoiseLFSR, RawSource,
    SquareWave, TriangleWave, Vca, Vcf, Vco,
};
use crate::volts::{semitone_frequency, semitone_millihertz, voltage_of_frequency};
use vstd::string::StrSliceExecFns;

/// Subdivision of a phrase, as a multiplier of the base sixteenth tick.
#[derive(Clone, Copy, PartialEq, Eq, Structural)]
pub enum PhraseType {
    Quarter,
    Eigth,
    Sixteenth,
}

impl PhraseType {
    /// How many sixteenth ticks one symbol of this subdivision occupies.
    pub open spec fn mult_spec(self) -> int {
        match self {
            PhraseType::Quarter => 4,
            PhraseType::Eigth => 2,
            PhraseType::Sixteenth => 1,
        }
    }

    fn mult(&self) -> (m: usize)
        ensures
            m == self.mult_spec(),
    {
        match self {
            PhraseType::Quarter => 4,
            PhraseType::Eigth => 2,
            PhraseType::Sixteenth => 1,
        }
    }

    /// Whether a tick lands on a symbol boundary of this subdivision.
    pub open spec fn in_phrase_spec(self, idx: int) -> bool {
        idx % self.mult_spec() == 0
    }

    fn in_phrase(&self, idx: usize) -> (b: bool)
        ensures
            b == self.in_phrase_spec(idx as int),
    {
        idx % self.mult() == 0
    }
}

/// The pitch code of a letter symbol: the fixed semitone offsets of the
/// seven note letters.
pub open spec fn letter_code(ch: char) -> Option<int> {
    if ch == 'c' {
        Some(0int)
    } else if ch == 'd' {
        Some(2int)
    } else if ch == 'e' {
        Some(4int)
    } else if ch == 'f' {
        Some(5int)
    } else if ch == 'g' {
        Some(7int)
    } else if ch == 'a' {
        Some(9int)
    } else if ch == 'b' {
        Some(11int)
    } else {
        None
    }
}

/// The raw code of a digit symbol.
pub open spec fn digit_code(ch: char) -> Option<int> {
    if '0' as int <= ch as int <= '9' as int {
        Some(ch as int - '0' as int)
    } else {
        None
    }
}

/// What a note symbol stands for: its pitch code and its semitone on the
/// pitch grid.  Letters sound two octaves above the grid base; digits are
/// raw codes at the bottom of the grid.  Anything else is a rest.
pub open spec fn note_event(ch: char) -> Option<(int, int)> {
    match letter_code(ch) {
        Some(n) => Some((n, n + 24)),
        None => match digit_code(ch) {
            Some(d) => Some((d, d)),
            None => None,
        },
    }
}

/// The named instrument presets a phrase can trigger.  A preset is an
/// arbitrary function of frequency: `Drum` picks a kick voice below a
/// threshold and a snare voice above it.
#[derive(Clone, Copy, PartialEq, Eq, Structural)]
pub enum Instrument {
    SquareHorn,
    Kick,
    Snare,
    Drum,
}

/// The horn voice: a square wave through a resonant low-pass filter, its
/// pitch swept by a short envelope, shaped by an amplitude envelope.
pub open spec fn square_horn_graph(f: int) -> RawSource {
    let sq = RawSource::Square(SquareWave { frequency: clamp_frequency(f) as u64, period: 0 });
    let vcf = RawSource::Vcf(
        Box::new(
            Vcf {
                source: sq,
                frequency: clamp_frequency(f / 4) as u64,
                resonance: 65536,
                input0: 0,
                input1: 0,
                output0: 0,
                output1: 0,
                c: cutoff_c_q16(f / 4) as i64,
            },
        ),
    );
    let cv = RawSource::Env(
        Envelope {
            amplitude: 19661,
            attack: ms_samples(100) as u64,
            hold: ms_samples(50) as u64,
            release: ms_samples(100) as u64,
            time: 0,
        },
    );
    let vco = RawSource::Vco(
        Box::new(
            Vco {
                oscillator: vcf.retuned(f / 2),
                base_voltage: voltage_of_frequency(f / 2) as i64,
                cv: Some(cv),
                last_cv: 0,
            },
        ),
    );
    let env = RawSource::Env(
        Envelope {
            amplitude: 19661,
            attack: ms_samples(50) as u64,
            hold: ms_samples(50) as u64,
            release: ms_samples(200) as u64,
            time: 0,
        },
    );
    RawSource::Vca(Box::new(Vca { source: vco, envelope: env }))
}

/// The kick voice: a triangle wave swept by its own short envelope and
/// boosted, shaped by a full-amplitude envelope.
pub open spec fn kick_graph(f: int) -> RawSource {
    let kick_env = RawSource::Env(
        Envelope {
            amplitude: 65536,
            attack: ms_samples(1) as u64,
            hold: ms_samples(100) as u64,
            release: ms_samples(300) as u64,
            time: 0,
        },
    );
    let freq_env = RawSource::Env(
        Envelope {
            amplitude: 1311,
            attack: 0,
            hold: 0,
            release: ms_samples(200) as u64,
            time: 0,
        },
    );
    let tri = RawSource::Triangle(TriangleWave { frequency: clamp_frequency(f) as u64, period: 0 });
    let vco = RawSource::Vco(
        Box::new(
            Vco {
                oscillator: tri.retuned(f),
                base_voltage: voltage_of_frequency(f) as i64,
                cv: Some(freq_env),
                last_cv: 0,
            },
        ),
    );
    let osc = RawSource::Att(Box::new(Attenuator { source: vco, attenuation: 0x20000 }));
    RawSource::Vca(Box::new(Vca { source: osc, envelope: kick_env }))
}

/// The snare voice: filtered-register noise shaped by a short envelope; it
/// ignores the triggering frequency.
pub open spec fn snare_graph() -> RawSource {
    let env = RawSource::Env(
        Envelope {
            amplitude: 13107,
            attack: ms_samples(1) as u64,
            hold: 0,
            release: ms_samples(300) as u64,
            time: 0,
        },
    );
    let osc = RawSource::Noise(NoiseLFSR { frequency: 20_000_000, period: 0, lfsr: 1, last: 1 });
    RawSource::Vca(Box::new(Vca { source: osc, envelope: env }))
}

/// The shared percussion preset: a kick below 100 Hz, a snare otherwise.
pub open spec fn drum_graph(f: int) -> RawSource {
    if f < 100_000 {
        kick_graph(f)
    } else {
        snare_graph()
    }
}

/// The graph an instrument preset builds for a trigger frequency, in
/// millihertz.
pub open spec fn instrument_graph(inst: Instrument, f: int) -> RawSource {
    match inst {
        Instrument::SquareHorn => square_horn_graph(f),
        Instrument::Kick => kick_graph(f),
        Instrument::Snare => snare_graph(),
        Instrument::Drum => drum_graph(f),
    }
}

fn square_horn(frequency: u64) -> (r: RawSource)
    ensures
        r == square_horn_graph(frequency as int),
        r.wf(),
{
    let sq = SquareWave::new(frequency).as_raw();
    let vcf = Vcf::new(sq, frequency / 4, 65536).as_raw();
    let cv = Envelope::new(19661, 100, 50, 100).as_raw();
    let vco = Vco::new(vcf, frequency / 2, cv).as_raw();
    let env = Envelope::new(19661, 50, 50, 200).as_raw();
    Vca::new(vco, env).as_raw()
}

fn kick(frequency: u64) -> (r: RawSource)
    ensures
        r == kick_graph(frequency as int),
        r.wf(),
{
    let kick_env = Envelope::new(65536, 1, 100, 300).as_raw();
    let freq_env = Envelope::new(1311, 0, 0, 200).as_raw();
    let tri = TriangleWave::new(frequency).as_raw();
    let vco = Vco::new(tri, frequency, freq_env).as_raw();
    let osc = Attenuator::new(vco, 0x20000).as_raw();
    Vca::new(osc, kick_env).as_raw()
}

fn snare(_frequency: u64) -> (r: RawSource)
    ensures
        r == snare_graph(),
        r.wf(),
{
    let env = Envelope::new(13107, 1, 0, 300).as_raw();
    let osc = NoiseLFSR::new(20_000_000).as_raw();
    Vca::new(osc, env).as_raw()
}

fn drum(frequency: u64) -> (r: RawSource)
    ensures
        r == drum_graph(frequency as int),
        r.wf(),
{
    if frequency < 100_000 {
        kick(frequency)
    } else {
        snare(frequency)
    }
}

impl Instrument {
    /// Build a brand-new, independent generator graph for one triggered
    /// note at the given frequency in millihertz.
    pub fn build(&self, frequency: u64) -> (r: RawSource)
        ensures
            r == instrument_graph(*self, frequency as int),
            r.wf(),
    {
        match self {
            Instrument::SquareHorn => square_horn(frequency),
            Instrument::Kick => kick(frequency),
            Instrument::Snare => snare(frequency),
            Instrument::Drum => drum(frequency),
        }
    }
}

} // verus!

verus! {

/// A fixed string of note symbols at one subdivision, with the instrument
/// preset that sounds them.
pub struct Phrase {
    pub notes: String,
    pub phrase_type: PhraseType,
    pub instrument: Instrument,
}

impl Phrase {
    pub open spec fn wf(self) -> bool {
        self.notes@.len() <= 0x10000
    }

    /// Length in sixteenth ticks: symbol count times the subdivision.
    pub open spec fn len_spec(self) -> int {
        self.notes@.len() * self.phrase_type.mult_spec()
    }

    /// The note at a tick: nothing off the subdivision grid or past the
    /// end or on a rest symbol; otherwise the pitch code and a brand-new
    /// generator graph at the symbol's frequency.
    pub open spec fn note_spec(self, idx: int) -> Option<(i32, RawSource)> {
        if !self.phrase_type.in_phrase_spec(idx) {
            None
        } else {
            let k = idx / self.phrase_type.mult_spec();
            if k >= self.notes@.len() {
                None
            } else {
                match note_event(self.notes@[k]) {
                    Some(ev) => Some(
                        (
                            ev.0 as i32,
                            instrument_graph(self.instrument, semitone_millihertz(ev.1)),
                        ),
                    ),
                    None => None,
                }
            }
        }
    }

    pub fn new(notes: &str, phrase_type: PhraseType, instrument: Instrument) -> (p: Phrase)
        requires
            notes@.len() <= 0x10000,
        ensures
            p.wf(),
            p.notes@ == notes@,
            p.phrase_type == phrase_type,
            p.instrument == instrument,
    {
        Phrase { notes: notes.to_owned(), phrase_type, instrument }
    }

    /// A phrase of quarter notes.
    pub fn quarter(notes: &str, instrument: Instrument) -> (p: Phrase)
        requires
            notes@.len() <= 0x10000,
        ensures
            p.wf(),
            p.notes@ == notes@,
            p.phrase_type == PhraseType::Quarter,
            p.instrument == instrument,
    {
        Phrase::new(notes, PhraseType::Quarter, instrument)
    }

    /// A phrase of eighth notes.
    pub fn eigth(notes: &str, instrument: Instrument) -> (p: Phrase)
        requires
            notes@.len() <= 0x10000,
        ensures
            p.wf(),
            p.notes@ == notes@,
            p.phrase_type == PhraseType::Eigth,
            p.instrument == instrument,
    {
        Phrase::new(notes, PhraseType::Eigth, instrument)
    }

    /// A phrase of sixteenth notes.
    pub fn sixteenth(notes: &str, instrument: Instrument) -> (p: Phrase)
        requires
            notes@.len() <= 0x10000,
        ensures
            p.wf(),
            p.notes@ == notes@,
            p.phrase_type == PhraseType::Sixteenth,
            p.instrument == instrument,
    {
        Phrase::new(notes, PhraseType::Sixteenth, instrument)
    }

    pub fn len(&self) -> (l: usize)
        requires
            self.wf(),
        ensures
            l == self.len_spec(),
    {
        let n = self.notes.as_str().unicode_len();
        n * self.phrase_type.mult()
    }

    pub fn note(&self, idx: usize) -> (r: Option<(i32, RawSource)>)
        requires
            self.wf(),
        ensures
            r == self.note_spec(idx as int),
            (r matches Some(p) ==> p.1.wf()),
    {
        if !self.phrase_type.in_phrase(idx) {
            return None;
        }
        let k = idx / self.phrase_type.mult();
        let n = self.notes.as_str().unicode_len();
        if k >= n {
            return None;
        }
        let ch = self.notes.as_str().get_char(k);
        let code: i32;
        let semi: i32;
        if ch == 'c' {
            code = 0;
            semi = 24;
        } else if ch == 'd' {
            code = 2;
            semi = 26;
        } else if ch == 'e' {
            code = 4;
            semi = 28;
        } else if ch == 'f' {
            code = 5;
            semi = 29;
        } else if ch == 'g' {
            code = 7;
            semi = 31;
        } else if ch == 'a' {
            code = 9;
            semi = 33;
        } else if ch == 'b' {
            code = 11;
            semi = 35;
        } else {
            let cu: u32 = ch as u32;
            if 48 <= cu && cu <= 57 {
                code = (cu - 48) as i32;
                semi = code;
            } else {
                return None;
            }
        }
        let f = semitone_frequency(semi);
        let g = self.instrument.build(f);
        Some((code, g))
    }
}

/// Total length in sixteenth ticks of the first `n` phrases of a chain.
pub open spec fn phrases_len(s: Seq<Phrase>, n: int) -> int
    decreases n,
{
    if n <= 0 {
        0
    } else {
        phrases_len(s, n - 1) + s[n - 1].len_spec()
    }
}

/// The note at offset `idx` of phrases strung together end to end: the
/// phrase owning the offset, by cumulative length, answers.
pub open spec fn phrases_note(s: Seq<Phrase>, idx: int) -> Option<(i32, RawSource)>
    decreases s.len(),
{
    if s.len() == 0 {
        None
    } else if idx < s[0].len_spec() {
        s[0].note_spec(idx)
    } else {
        phrases_note(s.skip(1), idx - s[0].len_spec())
    }
}

proof fn lemma_phrases_len_bounds(s: Seq<Phrase>, n: int)
    requires
        0 <= n <= s.len(),
        forall|i: int| 0 <= i < s.len() ==> (#[trigger] s[i]).wf(),
    ensures
        0 <= phrases_len(s, n) <= n * 0x40000,
    decreases n,
{
    if n > 0 {
        lemma_phrases_len_bounds(s, n - 1);
        assert(s[n - 1].len_spec() <= 0x1000_0000 * 4) by (nonlinear_arith)
            requires
                s[n - 1].notes@.len() <= 0x10000,
                1 <= s[n - 1].phrase_type.mult_spec() <= 4,
                s[n - 1].len_spec() == s[n - 1].notes@.len() * s[n - 1].phrase_type.mult_spec(),
        ;
        assert(s[n - 1].len_spec() >= 0) by (nonlinear_arith)
            requires
                s[n - 1].notes@.len() >= 0,
                s[n - 1].phrase_type.mult_spec() >= 1,
                s[n - 1].len_spec() == s[n - 1].notes@.len() * s[n - 1].phrase_type.mult_spec(),
        ;
    }
}

/// An ordered run of phrases; tick queries wrap around its total length.
pub struct Chain {
    pub phrases: Vec<Phrase>,
}

impl Chain {
    pub open spec fn wf(self) -> bool {
        (forall|i: int| 0 <= i < self.phrases@.len() ==> (#[trigger] self.phrases@[i]).wf())
            && self.phrases@.len() <= 0x400
    }

    /// Length in sixteenth ticks: the sum of the phrase lengths.
    pub open spec fn len_spec(self) -> int {
        phrases_len(self.phrases@, self.phrases@.len() as int)
    }

    /// The note at a tick, wrapped modulo the total length when the chain
    /// is not empty.
    pub open spec fn note_spec(self, idx: int) -> Option<(i32, RawSource)> {
        if self.len_spec() > 0 {
            phrases_note(self.phrases@, idx % self.len_spec())
        } else {
            None
        }
    }

    pub fn len(&self) -> (l: usize)
        requires
            self.wf(),
        ensures
            l == self.len_spec(),
    {
        let ghost s = self.phrases@;
        let n = self.phrases.len();
        let mut total: usize = 0;
        let mut i: usize = 0;
        while i < n
            invariant
                s == self.phrases@,
                self.wf(),
                n == s.len(),
                0 <= i <= n,
                total == phrases_len(s, i as int),
            decreases n - i,
        {
            proof {
                lemma_phrases_len_bounds(s, i as int);
                lemma_phrases_len_bounds(s, i as int + 1);
                assert((i as int + 1) * 0x40000 <= 0x401 * 0x40000) by (nonlinear_arith)
                    requires
                        i as int + 1 <= 0x401,
                ;
                assert(phrases_len(s, i as int + 1) == phrases_len(s, i as int) + s[i as int].len_spec());
            }
            let pl = self.phrases[i].len();
            total = total + pl;
            i = i + 1;
        }
        total
    }

    pub fn note(&self, idx: usize) -> (r: Option<(i32, RawSource)>)
        requires
            self.wf(),
        ensures
            r == self.note_spec(idx as int),
            (r matches Some(p) ==> p.1.wf()),
    {
        let ghost s = self.phrases@;
        let total = self.len();
        if total == 0 {
            return None;
        }
        let mut rem: usize = idx % total;
        let n = self.phrases.len();
        let mut i: usize = 0;
        proof {
            assert(s.skip(0) =~= s);
        }
        loop
            invariant
                s == self.phrases@,
                self.wf(),
                n == s.len(),
                0 <= i <= n,
                rem >= 0,
                phrases_note(s, (idx as int) % self.len_spec()) == phrases_note(
                    s.skip(i as int),
                    rem as int,
                ),
                self.len_spec() > 0,
            ensures
                i <= n,
                phrases_note(s, (idx as int) % self.len_spec()) == phrases_note(
                    s.skip(i as int),
                    rem as int,
                ),
                i == n || rem < s[i as int].len_spec(),
            decreases n - i,
        {
            if i == n {
                break ;
            }
            let pl = self.phrases[i].len();
            proof {
                assert(s.skip(i as int)[0] == s[i as int]);
            }
            if rem < pl {
                break ;
            }
            proof {
                assert(s.skip(i as int).skip(1) =~= s.skip(i as int + 1));
            }
            rem = rem - pl;
            i = i + 1;
        }
        if i == n {
            proof {
                assert(s.skip(n as int).len() == 0);
            }
            None
        } else {
            proof {
                assert(s.skip(i as int)[0] == s[i as int]);
            }
            self.phrases[i].note(rem)
        }
    }
}

/// Wraparound law: a chain with positive length answers a tick exactly as
/// it answers that tick reduced modulo the chain's length.
pub proof fn lemma_chain_wraparound(c: Chain, idx: int)
    requires
        c.len_spec() > 0,
    ensures
        c.note_spec(idx) == c.note_spec(idx % c.len_spec()),
{
    vstd::arithmetic::div_mod::lemma_mod_twice(idx, c.len_spec());
}

} // verus!

verus! {

/// An ordered run of chains, one active at a time; querying past the last
/// chain yields nothing — there is no wraparound across chains.
pub struct Track {
    pub chains: Vec<Chain>,
}

impl Track {
    pub open spec fn wf(self) -> bool {
        forall|i: int| 0 <= i < self.chains@.len() ==> (#[trigger] self.chains@[i]).wf()
    }

    pub open spec fn note_spec(self, idx: int, chain: int) -> Option<(i32, RawSource)> {
        if chain >= self.chains@.len() {
            None
        } else {
            self.chains@[chain].note_spec(idx)
        }
    }

    pub open spec fn len_of(self, chain: int) -> int {
        if chain >= self.chains@.len() {
            0
        } else {
            self.chains@[chain].len_spec()
        }
    }

    fn note(&self, idx: usize, chain: usize) -> (r: Option<(i32, RawSource)>)
        requires
            self.wf(),
        ensures
            r == self.note_spec(idx as int, chain as int),
            (r matches Some(p) ==> p.1.wf()),
    {
        if chain >= self.chains.len() {
            None
        } else {
            self.chains[chain].note(idx)
        }
    }

    fn len(&self, chain: usize) -> (l: usize)
        requires
            self.wf(),
        ensures
            l == self.len_of(chain as int),
    {
        if chain >= self.chains.len() {
            0
        } else {
            self.chains[chain].len()
        }
    }
}

/// One tick's worth of triggered notes: a fixed slot per gameplay lane.
pub type Notes = [Option<(i32, RawSource)>; 4];

/// Up to four tracks, one per spawn lane, queried together tick by tick.
pub struct Song {
    pub tracks: Vec<Track>,
}

/// The greatest chain length among the first `n` tracks.
pub open spec fn tracks_len(s: Seq<Track>, n: int, chain: int) -> int
    decreases n,
{
    if n <= 0 {
        0
    } else if s[n - 1].len_of(chain) > tracks_len(s, n - 1, chain) {
        s[n - 1].len_of(chain)
    } else {
        tracks_len(s, n - 1, chain)
    }
}

/// The greatest chain count among the first `n` tracks.
pub open spec fn tracks_chains(s: Seq<Track>, n: int) -> int
    decreases n,
{
    if n <= 0 {
        0
    } else if s[n - 1].chains@.len() > tracks_chains(s, n - 1) {
        s[n - 1].chains@.len() as int
    } else {
        tracks_chains(s, n - 1)
    }
}

impl Song {
    pub open spec fn wf(self) -> bool {
        forall|i: int| 0 <= i < self.tracks@.len() ==> (#[trigger] self.tracks@[i]).wf()
    }

    /// What lane `lane` sounds at this tick of this chain.
    pub open spec fn slot_spec(self, lane: int, idx: int, chain: int) -> Option<(i32, RawSource)> {
        if lane < self.tracks@.len() {
            self.tracks@[lane].note_spec(idx, chain)
        } else {
            None
        }
    }

    /// Query all four lanes at one tick of one chain.
    pub fn note(&self, idx: usize, chain: usize) -> (r: Notes)
        requires
            self.wf(),
        ensures
            forall|lane: int|
                0 <= lane < 4 ==> r@[lane] == self.slot_spec(lane, idx as int, chain as int),
            forall|lane: int|
                0 <= lane < 4 ==> ((#[trigger] r@[lane]) matches Some(p) ==> p.1.wf()),
    {
        let n = self.tracks.len();
        let n0 = if n > 0 {
            self.tracks[0].note(idx, chain)
        } else {
            None
        };
        let n1 = if n > 1 {
            self.tracks[1].note(idx, chain)
        } else {
            None
        };
        let n2 = if n > 2 {
            self.tracks[2].note(idx, chain)
        } else {
            None
        };
        let n3 = if n > 3 {
            self.tracks[3].note(idx, chain)
        } else {
            None
        };
        [n0, n1, n2, n3]
    }

    /// The length of this chain across the song: the greatest length any
    /// track gives it.  This drives when the tick index wraps back to zero.
    pub fn len(&self, chain: usize) -> (l: usize)
        requires
            self.wf(),
        ensures
            l == tracks_len(self.tracks@, self.tracks@.len() as int, chain as int),
    {
        let ghost s = self.tracks@;
        let n = self.tracks.len();
        let mut max: usize = 0;
        let mut i: usize = 0;
        while i < n
            invariant
                s == self.tracks@,
                self.wf(),
                n == s.len(),
                0 <= i <= n,
                max == tracks_len(s, i as int, chain as int),
            decreases n - i,
        {
            let len = self.tracks[i].len(chain);
            if len > max {
                max = len;
            }
            i = i + 1;
        }
        max
    }

    /// The greatest chain count over the tracks: when the active chain
    /// index reaches it, the score is complete.
    pub fn max_chains(&self) -> (m: usize)
        requires
            self.wf(),
        ensures
            m == tracks_chains(self.tracks@, self.tracks@.len() as int),
    {
        let ghost s = self.tracks@;
        let n = self.tracks.len();
        let mut max: usize = 0;
        let mut i: usize = 0;
        while i < n
            invariant
                s == self.tracks@,
                self.wf(),
                n == s.len(),
                0 <= i <= n,
                max == tracks_chains(s, i as int),
            decreases n - i,
        {
            let len = self.tracks[i].chains.len();
            if len > max {
                max = len;
            }
            i = i + 1;
        }
        max
    }
}

/// The shipped score: a melody track that plays a nursery-rhyme phrase on
/// the horn voice, and a percussion track with two chains of drum
/// patterns.
pub fn mary_song() -> (s: Song)
    ensures
        s.wf(),
        s.tracks@.len() == 2,
        s.tracks@[0].chains@.len() == 1,
        s.tracks@[0].chains@[0].phrases@.len() == 4,
        s.tracks@[0].chains@[0].phrases@[0].notes@ == "edcdeee_"@,
        s.tracks@[0].chains@[0].phrases@[1].notes@ == "ddd_cgg_"@,
        s.tracks@[0].chains@[0].phrases@[2].notes@ == "edcdeee_"@,
        s.tracks@[0].chains@[0].phrases@[3].notes@ == "ddedc___"@,
        forall|i: int|
            0 <= i < 4 ==> (#[trigger] s.tracks@[0].chains@[0].phrases@[i]).phrase_type
                == PhraseType::Eigth,
        forall|i: int|
            0 <= i < 4 ==> (#[trigger] s.tracks@[0].chains@[0].phrases@[i]).instrument
                == Instrument::SquareHorn,
        s.tracks@[1].chains@.len() == 2,
        s.tracks@[1].chains@[0].phrases@.len() == 1,
        s.tracks@[1].chains@[0].phrases@[0].notes@ == "009_90_0_0_0009_"@,
        s.tracks@[1].chains@[0].phrases@[0].phrase_type == PhraseType::Sixteenth,
        s.tracks@[1].chains@[0].phrases@[0].instrument == Instrument::Drum,
        s.tracks@[1].chains@[1].phrases@.len() == 2,
        s.tracks@[1].chains@[1].phrases@[0].notes@ == "1234"@,
        s.tracks@[1].chains@[1].phrases@[1].notes@ == "4321"@,
        forall|i: int|
            0 <= i < 2 ==> (#[trigger] s.tracks@[1].chains@[1].phrases@[i]).phrase_type
                == PhraseType::Quarter,
        forall|i: int|
            0 <= i < 2 ==> (#[trigger] s.tracks@[1].chains@[1].phrases@[i]).instrument
                == Instrument::Drum,
{
    proof {
        reveal_strlit("edcdeee_");
        reveal_strlit("ddd_cgg_");
        reveal_strlit("ddedc___");
        reveal_strlit("009_90_0_0_0009_");
        reveal_strlit("1234");
        reveal_strlit("4321");
    }
    let melody = Track {
        chains: vec![
            Chain {
                phrases: vec![
                    Phrase::eigth("edcdeee_", Instrument::SquareHorn),
                    Phrase::eigth("ddd_cgg_", Instrument::SquareHorn),
                    Phrase::eigth("edcdeee_", Instrument::SquareHorn),
                    Phrase::eigth("ddedc___", Instrument::SquareHorn),
                ],
            },
        ],
    };
    let drums = Track {
        chains: vec![
            Chain { phrases: vec![Phrase::sixteenth("009_90_0_0_0009_", Instrument::Drum)] },
            Chain {
                phrases: vec![
                    Phrase::quarter("1234", Instrument::Drum),
                    Phrase::quarter("4321", Instrument::Drum),
                ],
            },
        ],
    };
    Song { tracks: vec![melody, drums] }
}

} // verus!

verus! {

/// The playback position in a song: the current tick, the active chain,
/// and whether a chain advance has been requested.  Advances are applied
/// only at the moment the tick index wraps back to zero, never mid-chain.
pub struct SongCursor {
    /// The current sixteenth-note tick within the active chain.
    pub idx: usize,
    /// The active chain index.
    pub chain: usize,
    /// A pending request to advance to the next chain at the wrap point.
    pub next_chain: bool,
}

impl SongCursor {
    /// The start of a song: tick zero of the first chain, no advance
    /// pending.
    pub fn new() -> (c: SongCursor)
        ensures
            c.idx == 0,
            c.chain == 0,
            !c.next_chain,
    {
        SongCursor { idx: 0, chain: 0, next_chain: false }
    }

    /// Record an externally delivered "advance chain" event; it takes
    /// effect at the next wrap of the tick index, never mid-chain.
    pub fn request_next_chain(&mut self)
        ensures
            final(self).idx == old(self).idx,
            final(self).chain == old(self).chain,
            final(self).next_chain,
    {
        self.next_chain = true;
    }

    /// Move to the next tick, given the current chain's length and the
    /// song's chain count.  The tick wraps to zero at the end of the
    /// chain; a pending advance is applied exactly there; the result says
    /// whether the advance ran past the last chain, which means the score
    /// is complete.
    pub fn advance(&mut self, song_len: usize, max_chains: usize) -> (complete: bool)
        requires
            old(self).idx < usize::MAX,
            old(self).chain < usize::MAX,
        ensures
            old(self).idx + 1 < song_len ==> *final(self) == (SongCursor {
                idx: (old(self).idx + 1) as usize,
                ..*old(self)
            }),
            old(self).idx + 1 >= song_len && !old(self).next_chain ==> *final(self) == (SongCursor {
                idx: 0,
                chain: old(self).chain,
                next_chain: false,
            }),
            old(self).idx + 1 >= song_len && old(self).next_chain ==> *final(self) == (SongCursor {
                idx: 0,
                chain: (old(self).chain + 1) as usize,
                next_chain: false,
            }),
            complete == (old(self).idx + 1 >= song_len && old(self).next_chain && old(self).chain
                + 1 >= max_chains),
    {
        self.idx = self.idx + 1;
        if self.idx >= song_len {
            self.idx = 0;
            if self.next_chain {
                self.chain = self.chain + 1;
                self.next_chain = false;
                if self.chain >= max_chains {
                    return true;
                }
            }
        }
        false
    }
}

} // verus!
