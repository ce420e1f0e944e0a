use modsynth::audio::Audio;
use modsynth::generator::RawSource;
use modsynth::song::{mary_song, Chain, Instrument, Phrase, PhraseType, SongCursor, Track};

#[test]
fn sixteenth_phrase_has_one_slot_per_symbol() {
    let p = Phrase::new("c", PhraseType::Sixteenth, Instrument::SquareHorn);
    assert_eq!(p.len(), 1);
    let hit = p.note(0);
    assert!(hit.is_some());
    assert_eq!(hit.unwrap().0, 0);
    assert!(p.note(1).is_none(), "past the end yields nothing");
}

#[test]
fn quarter_phrase_sounds_only_on_its_grid() {
    let p = Phrase::new("c", PhraseType::Quarter, Instrument::SquareHorn);
    assert_eq!(p.len(), 4);
    assert!(p.note(0).is_some());
    assert!(p.note(1).is_none(), "misaligned tick");
    assert!(p.note(2).is_none(), "misaligned tick");
    assert!(p.note(3).is_none(), "misaligned tick");
    assert!(p.note(4).is_none(), "past the end");
}

#[test]
fn letters_map_to_fixed_semitones() {
    let p = Phrase::new("cdefgab", PhraseType::Sixteenth, Instrument::SquareHorn);
    let codes: Vec<i32> = (0..7).map(|i| p.note(i).unwrap().0).collect();
    assert_eq!(codes, vec![0, 2, 4, 5, 7, 9, 11]);
}

#[test]
fn digits_map_to_raw_codes_and_rests_are_silent() {
    let p = Phrase::new("09x_", PhraseType::Sixteenth, Instrument::Drum);
    assert_eq!(p.note(0).unwrap().0, 0);
    assert_eq!(p.note(1).unwrap().0, 9);
    assert!(p.note(2).is_none(), "an unknown symbol is a rest");
    assert!(p.note(3).is_none(), "an underscore is a rest");
}

#[test]
fn chain_wraps_around_its_length() {
    let chain = Chain {
        phrases: vec![Phrase::new("ab", PhraseType::Sixteenth, Instrument::SquareHorn)],
    };
    let at_two = chain.note(2);
    let at_zero = chain.note(0);
    assert!(at_two.is_some() && at_zero.is_some());
    assert_eq!(at_two.unwrap().0, at_zero.unwrap().0);
    assert_eq!(chain.note(5).unwrap().0, chain.note(1).unwrap().0);
}

#[test]
fn chain_strings_phrases_by_cumulative_length() {
    let chain = Chain {
        phrases: vec![
            Phrase::new("c", PhraseType::Sixteenth, Instrument::SquareHorn),
            Phrase::new("a", PhraseType::Sixteenth, Instrument::SquareHorn),
        ],
    };
    assert_eq!(chain.len(), 2);
    assert_eq!(chain.note(0).unwrap().0, 0);
    assert_eq!(chain.note(1).unwrap().0, 9);
}

#[test]
fn empty_chain_answers_nothing() {
    let chain = Chain { phrases: vec![] };
    assert_eq!(chain.len(), 0);
    assert!(chain.note(0).is_none());
    assert!(chain.note(7).is_none());
}

#[test]
fn track_does_not_wrap_across_chains() {
    let song = mary_song();
    for lane in song.note(0, 5) {
        assert!(lane.is_none(), "an out-of-range chain yields nothing");
    }
}

#[test]
fn shipped_melody_opens_on_e_and_rests_at_fourteen() {
    let song = mary_song();
    let first = song.note(0, 0);
    let hit = first[0].as_ref().expect("tick 0 must sound the melody");
    assert_eq!(hit.0, 4, "the melody opens on pitch class e");
    let rest = song.note(14, 0);
    assert!(rest[0].is_none(), "the eighth symbol is a rest");
}

#[test]
fn shipped_melody_eighth_grid() {
    let song = mary_song();
    assert!(song.note(1, 0)[0].is_none(), "off the eighth-note grid");
    let second = song.note(2, 0);
    assert_eq!(second[0].as_ref().unwrap().0, 2, "the second symbol is d");
}

#[test]
fn shipped_song_lengths() {
    let song = mary_song();
    assert_eq!(song.len(0), 64);
    assert_eq!(song.len(1), 32);
    assert_eq!(song.len(2), 0);
    assert_eq!(song.max_chains(), 2);
}

#[test]
fn drum_preset_picks_kick_below_the_threshold_and_snare_above() {
    let p = Phrase::new("09", PhraseType::Sixteenth, Instrument::Drum);
    // '0' sits at the bottom of the grid, far below 100 Hz: the kick.
    let kick = p.note(0).unwrap().1;
    match kick {
        RawSource::Vca(b) => assert!(
            matches!(b.source, RawSource::Att(_)),
            "the kick boosts a swept triangle through an attenuator"
        ),
        _ => panic!("the kick voice is an amplifier"),
    }
    // '9' is nine semitones up, about 110 Hz: the snare.
    let snare = p.note(1).unwrap().1;
    match snare {
        RawSource::Vca(b) => assert!(
            matches!(b.source, RawSource::Noise(_)),
            "the snare shapes register noise"
        ),
        _ => panic!("the snare voice is an amplifier"),
    }
}

#[test]
fn melody_notes_build_fresh_horn_graphs() {
    let song = mary_song();
    let a = song.note(0, 0);
    let b = song.note(0, 0);
    let ga = a[0].as_ref().unwrap();
    let gb = b[0].as_ref().unwrap();
    // Two queries of the same tick build two independent graphs with the
    // same shape and a fresh envelope clock each.
    match (&ga.1, &gb.1) {
        (RawSource::Vca(x), RawSource::Vca(y)) => {
            match (&x.envelope, &y.envelope) {
                (RawSource::Env(ex), RawSource::Env(ey)) => {
                    assert_eq!(ex.time, 0);
                    assert_eq!(ey.time, 0);
                    assert_eq!(ex.attack, ey.attack);
                }
                _ => panic!("the horn is shaped by an envelope"),
            }
        }
        _ => panic!("the horn voice is an amplifier"),
    }
}

#[test]
fn queue_delivers_both_producers_graphs_exactly_once() {
    let mut audio = Audio::new();
    let a = modsynth::generator::SquareWave::new(1000).as_raw();
    let b = modsynth::generator::SawWave::new(2000).as_raw();
    audio.play(a);
    audio.play(b);
    let batch = audio.drain();
    assert_eq!(batch.len(), 2, "no loss, no duplication");
    assert!(matches!(batch[0], RawSource::Square(_)));
    assert!(matches!(batch[1], RawSource::Saw(_)));
    assert_eq!(audio.queue.len(), 0, "the queue is empty after a drain");
    assert_eq!(audio.drain().len(), 0, "nothing is ever re-queued");
}

#[test]
fn queue_keeps_enqueue_order() {
    let mut audio = Audio::new();
    for f in [1000u64, 2000, 3000] {
        audio.play(modsynth::generator::SquareWave::new(f).as_raw());
    }
    let batch = audio.drain();
    let freqs: Vec<u64> = batch
        .iter()
        .map(|g| match g {
            RawSource::Square(w) => w.frequency,
            _ => panic!("unexpected node"),
        })
        .collect();
    assert_eq!(freqs, vec![1000, 2000, 3000]);
}

#[test]
fn cursor_wraps_and_advances_chains_only_at_the_boundary() {
    let mut c = SongCursor::new();
    let complete = c.advance(4, 2);
    assert!(!complete);
    assert_eq!((c.idx, c.chain), (1, 0));
    c.request_next_chain();
    let complete = c.advance(4, 2);
    assert!(!complete);
    assert_eq!(
        (c.idx, c.chain, c.next_chain),
        (2, 0, true),
        "an advance waits for the tick wrap"
    );
    c.advance(4, 2);
    let complete = c.advance(4, 2);
    assert!(!complete);
    assert_eq!((c.idx, c.chain, c.next_chain), (0, 1, false));
}

#[test]
fn cursor_reports_completion_past_the_last_chain() {
    let mut c = SongCursor::new();
    c.request_next_chain();
    assert!(!c.advance(2, 1));
    let complete = c.advance(2, 1);
    assert!(complete, "advancing past the last chain completes the score");
    assert_eq!(c.chain, 1);
}

#[test]
fn cursor_without_request_loops_its_chain() {
    let mut c = SongCursor::new();
    for _ in 0..10 {
        assert!(!c.advance(4, 2));
    }
    assert_eq!(c.chain, 0);
    assert_eq!(c.idx, 2);
}

#[test]
fn a_full_chain_of_melody_can_be_pulled_to_exhaustion() {
    let song = mary_song();
    let mut audio = Audio::new();
    for tick in 0..song.len(0) {
        for lane in song.note(tick, 0) {
            if let Some((_, graph)) = lane {
                audio.play(graph);
            }
        }
    }
    let voices = audio.drain();
    assert!(voices.len() > 20, "the chain triggers many notes");
    // Every triggered voice eventually exhausts, and stays exhausted.
    let mut voice = voices.into_iter().next().unwrap();
    let mut pulled = 0u64;
    while let Some(_) = voice.next() {
        pulled += 1;
        assert!(pulled < 100_000);
    }
    assert!(pulled > 1000, "a horn note sounds for a while");
    for _ in 0..100 {
        assert_eq!(voice.next(), None);
    }
}

#[test]
fn tracks_can_be_built_by_hand() {
    let track = Track {
        chains: vec![Chain {
            phrases: vec![Phrase::quarter("c", Instrument::SquareHorn)],
        }],
    };
    let song = modsynth::song::Song { tracks: vec![track] };
    assert_eq!(song.len(0), 4);
    assert!(song.note(0, 0)[0].is_some());
    assert!(song.note(0, 0)[1].is_none(), "unused lanes stay empty");
}

#[test]
fn horn_voice_has_the_documented_shape() {
    // Amplifier over a control-voltage oscillator over a filter over a
    // square wave, each envelope fresh.
    let p = Phrase::new("c", PhraseType::Sixteenth, Instrument::SquareHorn);
    let graph = p.note(0).unwrap().1;
    match graph {
        RawSource::Vca(vca) => match vca.source {
            RawSource::Vco(vco) => {
                assert!(matches!(vco.cv, Some(RawSource::Env(_))));
                match vco.oscillator {
                    RawSource::Vcf(vcf) => {
                        assert!(matches!(vcf.source, RawSource::Square(_)));
                        assert_eq!(vcf.input0, 0);
                        assert_eq!(vcf.output0, 0);
                    }
                    _ => panic!("the horn filters a square wave"),
                }
            }
            _ => panic!("the horn sweeps its pitch through a control stage"),
        },
        _ => panic!("the horn is shaped by an amplifier"),
    }
}

#[test]
fn note_pitch_follows_the_volt_per_octave_scale() {
    // 'c' sounds two octaves above the base of the grid.
    let p = Phrase::new("c", PhraseType::Sixteenth, Instrument::SquareHorn);
    let graph = p.note(0).unwrap().1;
    match graph {
        RawSource::Vca(vca) => match vca.source {
            RawSource::Vco(vco) => match vco.oscillator {
                RawSource::Vcf(vcf) => match vcf.source {
                    // The square runs at the triggered frequency: C4.
                    RawSource::Square(w) => assert_eq!(w.frequency, 65410 * 4),
                    _ => panic!("unexpected oscillator"),
                },
                _ => panic!("unexpected graph"),
            },
            _ => panic!("unexpected graph"),
        },
        _ => panic!("unexpected graph"),
    }
}
