//! From a pitch to the note it sounds as.
use crate::common::constants::{A4_FREQ, MAX_CENTS_OFFSET, MIN_FREQ};
use crate::common::error::PitchError;
use crate::common::fixed::{
    clamp_i64, div_floor, div_round, lemma_round_div_bounds, round_div, saturate_i64,
};
use crate::common::{lemma_note_cycle, note_at, NoteName};
use vstd::arithmetic::power2::{lemma2_to64, lemma_pow2_strictly_increases, lemma_pow2_unfold, pow2};
use vstd::prelude::*;
use vstd::string::StringExecFns;

verus! {

/// A frequency on both of its scales: in millihertz, and in thousandths of a
/// cent above A4 (1200 cents to the octave). The library computes on the
/// linear scale; the logarithm is the caller's.
#[derive(Debug, Clone, Copy, PartialEq, Eq, Structural)]
pub struct Pitch {
    pub freq: i64,
    pub cents: i64,
}

/// The result of a pitch detection expressed as a note.
#[derive(Debug, Clone, Copy, PartialEq, Eq, Structural)]
pub struct NoteDetection {
    /// The predominant frequency detected from a signal, in millihertz.
    pub actual_freq: i64,
    /// The note name of the detected note.
    pub note_name: NoteName,
    /// The expected frequency of the detected note, in millihertz.
    pub note_freq: i64,
    /// The octave of the detected note.
    pub octave: i32,
    /// The degree to which the detected note is in tune, in thousandths of a
    /// cent. Its magnitude is at most 50 cents, since anything larger belongs
    /// to the next or the previous note.
    pub cents_offset: i64,
    /// The note name of the note that comes before the detected note.
    pub previous_note_name: NoteName,
    /// The note name of the note that comes after the detected note.
    pub next_note_name: NoteName,
    /// Whether the magnitude of `cents_offset` is less than `MAX_CENTS_OFFSET`.
    pub in_tune: bool,
}

/// The result of a detection of a note.
pub type NoteDetectionResult = NoteDetection;

/// Thousandths of a cent in a semitone.
pub open spec fn semitone_cents() -> int {
    100_000
}

/// The number of semitones above A4 of the note nearest to `cents`.
pub open spec fn nearest_semitone(cents: int) -> int {
    round_div(cents, semitone_cents())
}

/// `x` limited to the range of `i32`.
pub open spec fn clamp_i32(x: int) -> int {
    if x < i32::MIN {
        i32::MIN as int
    } else if x > i32::MAX {
        i32::MAX as int
    } else {
        x
    }
}

/// The octave of a pitch: the fifth begins two semitones above A4, and each
/// octave spans twelve semitones.
pub open spec fn octave_of(cents: int) -> int {
    clamp_i32(5 + (cents - 2 * semitone_cents()) / (12 * semitone_cents()))
}

/// The frequencies of the twelve notes from A4 upwards, in 1024ths of a
/// millihertz.
pub open spec fn octave_table(r: int) -> int {
    if r == 0 {
        450_560_000
    } else if r == 1 {
        477_351_692
    } else if r == 2 {
        505_736_500
    } else if r == 3 {
        535_809_158
    } else if r == 4 {
        567_670_028
    } else if r == 5 {
        601_425_445
    } else if r == 6 {
        637_188_063
    } else if r == 7 {
        675_077_237
    } else if r == 8 {
        715_219_418
    } else if r == 9 {
        757_748_578
    } else if r == 10 {
        802_806_653
    } else {
        850_544_021
    }
}

/// The frequency in millihertz of the note `n` semitones above A4: the
/// table's entry for the note, doubled or halved once per octave, rounded.
pub open spec fn semitone_freq(n: int) -> int {
    let q = n / 12;
    let t = octave_table(n % 12);
    if q >= 0 {
        clamp_i64(round_div(t * pow2(q as nat), 1024))
    } else {
        round_div(t, 1024 * (pow2((-q) as nat) as int))
    }
}

/// The note that a pitch sounds as.
pub open spec fn note_of(pitch: Pitch) -> NoteDetection {
    let n = nearest_semitone(pitch.cents as int);
    let offset = pitch.cents - n * semitone_cents();
    NoteDetection {
        actual_freq: pitch.freq,
        note_name: note_at(n),
        note_freq: semitone_freq(n) as i64,
        octave: octave_of(pitch.cents as int) as i32,
        cents_offset: offset as i64,
        previous_note_name: note_at(n - 1),
        next_note_name: note_at(n + 1),
        in_tune: -MAX_CENTS_OFFSET < offset < MAX_CENTS_OFFSET,
    }
}

fn power_of_two(k: u32) -> (p: i128)
    requires
        k <= 62,
    ensures
        p == pow2(k as nat),
        1 <= p <= 0x4000_0000_0000_0000,
{
    let mut p: i128 = 1;
    let mut i: u32 = 0;
    proof {
        lemma2_to64();
        vstd::arithmetic::power2::lemma2_to64_rest();
    }
    while i < k
        invariant
            i <= k <= 62,
            p == pow2(i as nat),
            1 <= p,
            pow2(62) == 0x4000_0000_0000_0000,
            p <= 0x4000_0000_0000_0000,
        decreases k - i,
    {
        proof {
            lemma_pow2_unfold((i + 1) as nat);
            if i + 1 < 62 {
                lemma_pow2_strictly_increases((i + 1) as nat, 62);
            }
        }
        p = p * 2;
        i = i + 1;
    }
    p
}

fn table_entry(r: i128) -> (t: i128)
    requires
        0 <= r < 12,
    ensures
        t == octave_table(r as int),
        450_560_000 <= t <= 850_544_021,
{
    if r == 0 {
        450_560_000
    } else if r == 1 {
        477_351_692
    } else if r == 2 {
        505_736_500
    } else if r == 3 {
        535_809_158
    } else if r == 4 {
        567_670_028
    } else if r == 5 {
        601_425_445
    } else if r == 6 {
        637_188_063
    } else if r == 7 {
        675_077_237
    } else if r == 8 {
        715_219_418
    } else if r == 9 {
        757_748_578
    } else if r == 10 {
        802_806_653
    } else {
        850_544_021
    }
}

/// The frequency in millihertz of the note `n` semitones above A4.
pub fn note_frequency(n: i64) -> (freq: i64)
    ensures
        freq == semitone_freq(n as int),
        freq >= 0,
{
    let (q, r) = div_floor(n as i128, 12);
    let t = table_entry(r);
    proof {
        lemma2_to64();
        vstd::arithmetic::power2::lemma2_to64_rest();
    }
    if q >= 0 {
        if q > 45 {
            proof {
                lemma_pow2_strictly_increases(45, q as nat);
                let p = pow2(q as nat) as int;
                assert(t * p >= 450_560_000 * 0x2000_0000_0000) by (nonlinear_arith)
                    requires
                        t >= 450_560_000,
                        p >= 0x2000_0000_0000,
                ;
                lemma_round_div_bounds(t * p, 1024);
            }
            i64::MAX
        } else {
            let p = power_of_two(q as u32);
            proof {
                if q < 45 {
                    lemma_pow2_strictly_increases(q as nat, 45);
                }
                assert(0 <= t * p <= 850_544_021 * 0x2000_0000_0000) by (nonlinear_arith)
                    requires
                        0 <= t <= 850_544_021,
                        0 <= p <= 0x2000_0000_0000,
                ;
                lemma_round_div_bounds(t * p, 1024);
            }
            saturate_i64(div_round(t * p, 1024))
        }
    } else {
        if q < -41 {
            proof {
                lemma_pow2_strictly_increases(41, (-q) as nat);
                let d = 1024 * (pow2((-q) as nat) as int);
                vstd::arithmetic::div_mod::lemma_basic_div(2 * t + d, 2 * d);
            }
            0
        } else {
            let p = power_of_two((-q) as u32);
            proof {
                if -q < 41 {
                    lemma_pow2_strictly_increases((-q) as nat, 41);
                }
                lemma_round_div_bounds(t as int, 1024 * p);
            }
            let f = div_round(t, 1024 * p);
            proof {
                assert(2 * (1024 * p) * f <= 2 * t + 1024 * p);
                assert(f <= t) by (nonlinear_arith)
                    requires
                        2 * (1024 * p) * f <= 2 * t + 1024 * p,
                        p >= 1,
                        t >= 0,
                        f >= 0,
                ;
            }
            f as i64
        }
    }
}

/// `result` is the note of a frequency whose place on the scale of cents
/// `cents` is asked for: no note below `MIN_FREQ`, and else the note of the
/// frequency with the cents that came back.
pub open spec fn is_note_of_freq<C: Fn(i64) -> i64>(
    freq: i64,
    cents: C,
    result: Result<NoteDetection, PitchError>,
) -> bool {
    if freq < MIN_FREQ {
        result is Err && result->Err_0 is IncorrectParameters
    } else {
        exists|above_a4: i64| #[trigger]
            cents.ensures((freq,), above_a4) && result == Ok::<NoteDetection, PitchError>(
                note_of(Pitch { freq, cents: above_a4 }),
            )
    }
}

impl NoteDetection {
    /// The note that a frequency in millihertz sounds as, with `cents` to
    /// say how many thousandths of a cent above A4 the frequency lies. A
    /// frequency below `MIN_FREQ` is below the range of musical pitch and
    /// has no note.
    pub fn try_from_freq<C: Fn(i64) -> i64>(freq: i64, cents: &C) -> (result: Result<
        NoteDetection,
        PitchError,
    >)
        requires
            forall|f: i64| #[trigger] cents.requires((f,)),
        ensures
            is_note_of_freq(freq, *cents, result),
    {
        if freq < MIN_FREQ {
            return Err(PitchError::IncorrectParameters(String::from_str("Invalid frequency")));
        }
        let above_a4 = cents(freq);
        NoteDetection::try_from(Pitch { freq, cents: above_a4 })
    }

    /// The note that `pitch` sounds as. A frequency below `MIN_FREQ` is below
    /// the range of musical pitch and has no note.
    pub fn try_from(pitch: Pitch) -> (result: Result<NoteDetection, PitchError>)
        ensures
            pitch.freq >= MIN_FREQ ==> result == Ok::<NoteDetection, PitchError>(note_of(pitch)),
            pitch.freq < MIN_FREQ ==> result is Err && result->Err_0 is IncorrectParameters,
    {
        if pitch.freq < MIN_FREQ {
            return Err(PitchError::IncorrectParameters(String::from_str("Invalid frequency")));
        }
        let n128 = div_round(pitch.cents as i128, 100_000);
        proof {
            lemma_round_div_bounds(pitch.cents as int, 100_000);
            lemma_note_cycle(n128 as int);
            lemma_note_cycle(n128 - 1);
        }
        let n: i64 = n128 as i64;
        let cents_offset: i64 = (pitch.cents as i128 - n128 * 100_000) as i64;
        let (octaves, _) = div_floor(pitch.cents as i128 - 200_000, 1_200_000);
        let octave128: i128 = 5 + octaves;
        let octave: i32 = if octave128 < i32::MIN as i128 {
            i32::MIN
        } else if octave128 > i32::MAX as i128 {
            i32::MAX
        } else {
            octave128 as i32
        };
        let (_, index) = div_floor(n128, 12);
        let note_name = NoteName::from_index(index as usize);
        Ok(
            NoteDetection {
                actual_freq: pitch.freq,
                note_name,
                note_freq: note_frequency(n),
                octave,
                cents_offset,
                previous_note_name: note_name.previous(),
                next_note_name: note_name.next(),
                in_tune: -MAX_CENTS_OFFSET < cents_offset && cents_offset < MAX_CENTS_OFFSET,
            },
        )
    }
}

/// The twelfth power.
pub open spec fn pow12(x: int) -> int {
    let x2 = x * x;
    let x4 = x2 * x2;
    x4 * x4 * x4
}

/// Each entry of the table is the integer nearest to the frequency of A4 in
/// 1024ths of a millihertz times the twelfth root of two, `r` times over:
/// twice the entry, less one and plus one, raised to the twelfth power,
/// enclose the twelfth power of twice that frequency, doubled `r` times.
pub proof fn lemma_octave_table_equal_tempered(r: int)
    requires
        0 <= r < 12,
    ensures
        octave_table(0) == 1024 * A4_FREQ,
        pow12(2 * octave_table(r) - 1) < pow12(2 * octave_table(0)) * pow2(r as nat),
        pow12(2 * octave_table(0)) * pow2(r as nat) <= pow12(2 * octave_table(r) + 1),
{
    lemma2_to64();
    let b2 = 901120000int * 901120000;
    assert(b2 == 812017254400000000);
    let b4 = b2 * b2;
    assert(b4 == 659372021443314319360000000000000000);
    let b12 = b4 * b4 * b4;
    assert(b4 * b4 == 434771462662242558585812838869620070809600000000000000000000000000000000);
    assert(b12 == 286676138201469331294202026923903284407724031674352828153856000000000000000000000000000000000000000000000000);
    assert(pow12(2 * octave_table(0)) == b12);
    if r == 0 {
        let l2 = 901119999int * 901119999;
        assert(l2 == 812017252597760001);
        let l4 = l2 * l2;
        assert(l4 == 659372018516414371092391522795520001);
        assert(l4 * l4 == 434771458802410696249465928334300310106361475353143833980515115991040001);
        assert(l4 * l4 * l4 == 286676134383871633517163910722155393396379197698476078862882230228247692544266549823996314108978779586560001);
        let h2 = 901120001int * 901120001;
        assert(h2 == 812017256202240001);
        let h4 = h2 * h2;
        assert(h4 == 659372024370214277371815530004480001);
        assert(h4 * h4 == 434771466522074450905761424317308979027991577014860921892451130408960001);
        assert(h4 * h4 * h4 == 286676142019067075672774824251205445840958145145924176891132508219481883439346339089179959477298801213440001);
        assert(b12 * 1 == 286676138201469331294202026923903284407724031674352828153856000000000000000000000000000000000000000000000000);
    }
    if r == 1 {
        let l2 = 954703383int * 954703383;
        assert(l2 == 911458549511644689);
        let l4 = l2 * l2;
        assert(l4 == 830756687477871252940772809781906721);
        assert(l4 * l4 == 690156673789205447039591787735380105963115357047913030193676698344971841);
        assert(l4 * l4 * l4 == 573352272157866087974049055663886654757972770803644593617079805175188440835873747435171484020494428033643361);
        let h2 = 954703385int * 954703385;
        assert(h2 == 911458553330458225);
        let h4 = h2 * h2;
        assert(h4 == 830756694439251760280099488470150625);
        assert(h4 * h4 == 690156685355632316600894038974272888463749962433940042911801610187890625);
        assert(h4 * h4 * h4 == 573352286571195856530460304774761326830976820191284179856174715316606291028795730277464094768343144775390625);
        assert(b12 * 2 == 573352276402938662588404053847806568815448063348705656307712000000000000000000000000000000000000000000000000);
    }
    if r == 2 {
        let l2 = 1011472999int * 1011472999;
        assert(l2 == 1023077627706054001);
        let l4 = l2 * l2;
        assert(l4 == 1046687832312647233252383506328108001);
        assert(l4 * l4 == 1095555418311348333605219494602621587337427011542092597385717872320216001);
        assert(l4 * l4 * l4 == 1146704525970680658707760643540761670421176418297593674542801713717753307903296495103137419046638809976324001);
        let h2 = 1011473001int * 1011473001;
        assert(h2 == 1023077631751946001);
        let h4 = h2 * h2;
        assert(h4 == 1046687840591170428251430050419892001);
        assert(h4 * h4 == 1095555435641407397586211068009154908220731018144042289788369392503784001);
        assert(h4 * h4 * h4 == 1146704553179423699600845300733107823207632606382110662022726614326469788036683248554278755306198314251676001);
        assert(b12 * 4 == 1146704552805877325176808107695613137630896126697411312615424000000000000000000000000000000000000000000000000);
    }
    if r == 3 {
        let l2 = 1071618315int * 1071618315;
        assert(l2 == 1148365813043439225);
        let l4 = l2 * l2;
        assert(l4 == 1318744040566919210868316816268600625);
        assert(l4 * l4 == 1739085844530764261309589444223539294489444521675851235023366295750390625);
        assert(l4 * l4 * l4 == 2293409093509233140860664853875314667653858574897405145334811128376818099228179606978397844898739765869140625);
        let h2 = 1071618317int * 1071618317;
        assert(h2 == 1148365817329912489);
        let h4 = h2 * h2;
        assert(h4 == 1318744050411797939046819276398175121);
        assert(h4 * h4 == 1739085870496514664010088726954005627408231861020199955931408218983364641);
        assert(h4 * h4 * h4 == 2293409144872501236196962036016238861784591620214167066547885900426905920213860023819708622829715628917296561);
        assert(b12 * 8 == 2293409105611754650353616215391226275261792253394822625230848000000000000000000000000000000000000000000000000);
    }
    if r == 4 {
        let l2 = 1135340055int * 1135340055;
        assert(l2 == 1288997040487403025);
        let l4 = l2 * l2;
        assert(l4 == 1661513370385283713261653708779150625);
        assert(l4 * l4 == 2760626679969064981803411430597978475308478862890425814850610696437890625);
        assert(l4 * l4 * l4 == 4586818139410937151852847094245443304616070551419056261695084385981312363451210958832314704490955254150390625);
        let h2 = 1135340057int * 1135340057;
        assert(h2 == 1288997045028763249);
        let h4 = h2 * h2;
        assert(h4 == 1661513382092883510932025734493036001);
        assert(h4 * h4 == 2760626718873732316770035447060176347067285242415770257683983966282072001);
        assert(h4 * h4 * h4 == 4586818236371874914621027561606258688663908247176546465957927135901160919361289122927133894256705351367108001);
        assert(b12 * 16 == 4586818211223509300707232430782452550523584506789645250461696000000000000000000000000000000000000000000000000);
    }
    if r == 5 {
        let l2 = 1202850889int * 1202850889;
        assert(l2 == 1446850261168090321);
        let l4 = l2 * l2;
        assert(l4 == 2093375678242171170649101918013883041);
        assert(l4 * l4 == 4382221730255870161157881731320382091022819160533557681081738014827407681);
        assert(l4 * l4 * l4 == 9173636386781963078553846940913513984928217668038621932516254925672567692375074807535062227916139666759037921);
        let h2 = 1202850891int * 1202850891;
        assert(h2 == 1446850265979493881);
        let h4 = h2 * h2;
        assert(h4 == 2093375692164932188540865192916442161);
        assert(h4 * h4 == 4382221788547008932666818913817220717576737794486896731572186058458349921);
        assert(h4 * h4 * h4 == 9173636569819841929208106206336210092899457688855888207427328028725058255532060292573806920932492362095419281);
        assert(b12 * 32 == 9173636422447018601414464861564905101047169013579290500923392000000000000000000000000000000000000000000000000);
    }
    if r == 6 {
        let l2 = 1274376125int * 1274376125;
        assert(l2 == 1624034507970015625);
        let l4 = l2 * l2;
        assert(l4 == 2637488083077410744599274062744140625);
        assert(l4 * l4 == 6956343388375354721759476325256744391500326367121618194639682769775390625);
        assert(l4 * l4 * l4 == 18347272788634334530920772924655649420887643219934058757099215300420992949288405310377129353582859039306640625);
        let h2 = 1274376127int * 1274376127;
        assert(h2 == 1624034513067520129);
        let h4 = h2 * h2;
        assert(h4 == 2637488099634457208640983321820176641);
        assert(h4 * h4 == 6956343475713380475633242899512914059314640036282984791982299244442042881);
        assert(h4 * h4 * h4 == 18347273134163838803490664969838418937223752295171325941383117448566714672774386198155913611651100450316542721);
        assert(b12 * 64 == 18347272844894037202828929723129810202094338027158581001846784000000000000000000000000000000000000000000000000);
    }
    if r == 7 {
        let l2 = 1350154473int * 1350154473;
        assert(l2 == 1822917100961907729);
        let l4 = l2 * l2;
        assert(l4 == 3323026756979366096557798279109937441);
        assert(l4 * l4 == 11042506827600803022520844314953014626104317284970808343787014318933628481);
        assert(l4 * l4 * l4 == 36694545652244804538882671034426060428594896397218690230927624108046628800321759603218307861181105163045857121);
        let h2 = 1350154475int * 1350154475;
        assert(h2 == 1822917106362525625);
        let h4 = h2 * h2;
        assert(h4 == 3323026776669123562483107328781640625);
        assert(h4 * h4 == 11042506958459985205615475744316539345727495681530344712210962066650390625);
        assert(h4 * h4 * h4 == 36694546304517652157613338833345402086053608367569644006933441639989203100249712237338255896627902984619140625);
        assert(b12 * 128 == 36694545689788074405657859446259620404188676054317162003693568000000000000000000000000000000000000000000000000);
    }
    if r == 8 {
        let l2 = 1430438835int * 1430438835;
        assert(l2 == 2046155260676157225);
        let l4 = l2 * l2;
        assert(l4 == 4186751350792712925498695592919700625);
        assert(l4 * l4 == 17528886873364606322616620176043914576173855139533688010140139239625390625);
        assert(l4 * l4 * l4 == 73389090794951919757554210356498931239338314967796840071976722656130896956695546869159634557236121523681640625);
        let h2 = 1430438837int * 1430438837;
        assert(h2 == 2046155266397912569);
        let h4 = h2 * h2;
        assert(h4 == 4186751374207912553092211120568179761);
        assert(h4 * h4 == 17528887069431844210704553345207134058084628248101319050569112880810017121);
        assert(h4 * h4 * h4 == 73389092026279082811991855534433505431055077184335679000078940032322342475215040319683843569547242534215688081);
        assert(b12 * 256 == 73389091379576148811315718892519240808377352108634324007387136000000000000000000000000000000000000000000000000);
    }
    if r == 9 {
        let l2 = 1515497155int * 1515497155;
        assert(l2 == 2296731626813094025);
        let l4 = l2 * l2;
        assert(l4 == 5274976165603521400919391193490700625);
        assert(l4 * l4 == 27825373547685229235198633345316402413382843473030004915289978353375390625);
        assert(l4 * l4 * l4 == 146778182263054283562838329639797139074530373359947558245812141799303611186595574795486715397797540664306640625);
        let h2 = 1515497157int * 1515497157;
        assert(h2 == 2296731632875082649);
        let h4 = h2 * h2;
        assert(h4 == 5274976193449043425911075978580857201);
        assert(h4 * h4 == 27825373841454160011809810242410355303159640538692973419296230243953554401);
        assert(h4 * h4 * h4 == 146778184587490451760132360566744335341944223291705253289334225627863284840523514782071834276821687961366091601);
        assert(b12 * 512 == 146778182759152297622631437785038481616754704217268648014774272000000000000000000000000000000000000000000000000);
    }
    if r == 10 {
        let l2 = 1605613305int * 1605613305;
        assert(l2 == 2577994085193023025);
        let l4 = l2 * l2;
        assert(l4 == 6646053503290211658474872138180150625);
        assert(l4 * l4 == 44170027168596095427920950029573316038041815528761760568944026747687890625);
        assert(l4 * l4 * l4 == 293556363804271908450334747582623421345969923834799247852765826840229526528264642806403263436416597051025390625);
        let h2 = 1605613307int * 1605613307;
        assert(h2 == 2577994091615476249);
        let h4 = h2 * h2;
        assert(h4 == 6646053536404304547524500331083110001);
        assert(h4 * h4 == 44170027608752162631555633111205138810840941285917241101074727934266220001);
        assert(h4 * h4 * h4 == 293556368192223078031598611072205641001434447694630239093433508921217074130845745841991784919334913809549330001);
        assert(b12 * 1024 == 293556365518304595245262875570076963233509408434537296029548544000000000000000000000000000000000000000000000000);
    }
    if r == 11 {
        let l2 = 1701088041int * 1701088041;
        assert(l2 == 2893700523233217681);
        let l4 = l2 * l2;
        assert(l4 == 8373502718160197780019484812731017761);
        assert(l4 * l4 == 70115547771036220616847107673448967696766378018832703991817878830897453121);
        assert(l4 * l4 * l4 == 587112729846062990109387031854324095238656184291015311057970404919470220737128770288571556148073452053115882081);
        let h2 = 1701088043int * 1701088043;
        assert(h2 == 2893700530037569849);
        let h4 = h2 * h2;
        assert(h4 == 8373502757539712683928051433553882801);
        assert(h4 * h4 == 70115548430525172343010106318195300632648768800511947109670993823243605601);
        assert(h4 * h4 * h4 == 587112738129411804400621290033920433382889680246618509725064549740424305267392717573773338616366743408621168401);
        assert(b12 * 2048 == 587112731036609190490525751140153926467018816869074592059097088000000000000000000000000000000000000000000000000);
    }
}

/// The note found for a pitch is the nearest one: the offset is at most half
/// a semitone either way and, with the semitones of the note, makes up the
/// cents of the pitch; the neighbours are one semitone away on either side,
/// and the pitch is in tune exactly when the offset is within the tolerance.
pub proof fn lemma_note_is_nearest(pitch: Pitch)
    ensures
        -50_000 <= note_of(pitch).cents_offset <= 50_000,
        note_of(pitch).cents_offset + nearest_semitone(pitch.cents as int) * 100_000
            == pitch.cents,
        note_of(pitch).in_tune <==> -MAX_CENTS_OFFSET < note_of(pitch).cents_offset
            < MAX_CENTS_OFFSET,
        note_of(pitch).next_note_name == note_at(note_of(pitch).note_name.spec_index() + 1),
        note_of(pitch).previous_note_name == note_at(note_of(pitch).note_name.spec_index() - 1),
{
    lemma_round_div_bounds(pitch.cents as int, 100_000);
    lemma_note_cycle(nearest_semitone(pitch.cents as int));
}

} // verus!
