//! The Piper speech engine: what it synthesizes without a model, the
//! Python script it runs with one, and how it reads the script's outcome.
use vstd::prelude::*;

use crate::text::{
    chars_of, contains, extend, extend_str, has, replace, replace_str, same_str, string_of, trim,
    trim_str,
};

verus! {

/// Two bytes of `x`, least significant first.
pub open spec fn le16(x: nat) -> Seq<u8> {
    seq![(x % 256) as u8, ((x / 256) % 256) as u8]
}

/// Four bytes of `x`, least significant first.
pub open spec fn le32(x: nat) -> Seq<u8> {
    seq![
        (x % 256) as u8,
        ((x / 256) % 256) as u8,
        ((x / 65536) % 256) as u8,
        ((x / 16777216) % 256) as u8,
    ]
}

/// A WAV file of `samples` zero samples of 16-bit mono PCM at `rate`: the
/// RIFF header, a 16-byte "fmt " chunk (PCM, one channel, the rate, twice the
/// rate in bytes per second, two bytes per frame, 16 bits), and the "data"
/// chunk of two zero bytes per sample.
pub open spec fn silent_wav(rate: nat, samples: nat) -> Seq<u8> {
    seq![82u8, 73, 70, 70] + le32(36 + 2 * samples) + seq![87u8, 65, 86, 69] + seq![
        102u8,
        109,
        116,
        32,
    ] + le32(16) + le16(1) + le16(1) + le32(rate) + le32(2 * rate) + le16(2) + le16(16) + seq![
        100u8,
        97,
        116,
        97,
    ] + le32(2 * samples) + Seq::new(2 * samples, |i: int| 0u8)
}

/// Writes `samples` zero samples into an in-memory WAV file with
/// `hound::WavWriter` (16-bit integer, one channel). For that format hound
/// writes the PCMWAVEFORMAT header (`write_headers`, `write_pcmwaveformat`),
/// two little-endian bytes per sample, and fills in the two sizes when it is
/// finalized (`update_header`). The rate must be positive and its byte rate
/// must fit in `u32` (hound divides by it and multiplies it), and the data
/// size must fit in hound's `u32` counter.
#[verifier::external_body]
fn hound_silence(sample_rate: u32, samples: usize) -> (r: Vec<u8>)
    requires
        0 < sample_rate < 0x8000_0000,
        samples < 0x4000_0000,
    ensures
        r@ == silent_wav(sample_rate as nat, samples as nat),
{
    let spec = hound::WavSpec {
        channels: 1,
        sample_rate,
        bits_per_sample: 16,
        sample_format: hound::SampleFormat::Int,
    };
    let mut buf = std::io::Cursor::new(Vec::new());
    {
        let mut writer = hound::WavWriter::new(&mut buf, spec).unwrap();
        for _ in 0..samples {
            writer.write_sample(0i16).unwrap();
        }
        writer.finalize().unwrap();
    }
    buf.into_inner()
}

/// The sample rate of Piper voices.
pub open spec fn piper_rate() -> u32 {
    22050
}

/// The Piper engine.
pub struct PiperTts {
    model_path: String,
    sample_rate: u32,
}

/// The half second of silence that the engine gives when it has nothing better.
pub open spec fn silence() -> Seq<u8> {
    silent_wav(piper_rate() as nat, (piper_rate() / 2) as nat)
}

pub open spec fn script_part1() -> Seq<char> {
    "\nimport sys\ntry:\n    from piper import PiperVoice\n    import wave\n    import io\n    \n    voice = PiperVoice.load(r\""@
}

pub open spec fn script_part2() -> Seq<char> {
    "\")\n    wav_buffer = io.BytesIO()\n    with wave.open(wav_buffer, 'wb') as wav_file:\n        voice.synthesize(\""@
}

pub open spec fn script_part3() -> Seq<char> {
    "\", wav_file)\n    \n    with open(r\""@
}

pub open spec fn script_part4() -> Seq<char> {
    "\", 'wb') as f:\n        f.write(wav_buffer.getvalue())\n    \n    print(\"OK\")\nexcept ImportError:\n    # piper 未安装，使用 pyttsx3 作为备选\n    try:\n        import pyttsx3\n        engine = pyttsx3.init()\n        engine.setProperty('rate', 150)\n        engine.save_to_file(\""@
}

pub open spec fn script_part5() -> Seq<char> {
    "\", r\""@
}

pub open spec fn script_part6() -> Seq<char> {
    "\")\n        engine.runAndWait()\n        print(\"OK\")\n    except:\n        print(\"NO_PIPER\")\nexcept Exception as e:\n    print(f\"ERROR: {e}\")\n"@
}

/// The Python script that synthesizes `text` with the model into `out`
/// (quotes in the text are escaped for the Piper call only).
pub open spec fn python_script(model: Seq<char>, text: Seq<char>, out: Seq<char>) -> Seq<char> {
    script_part1() + model + script_part2() + replace(text, "\""@, "\\\""@) + script_part3() + out
        + script_part4() + text + script_part5() + out + script_part6()
}

/// A file of a model directory that holds a Piper voice: its extension is
/// "onnx" and its path does not contain ".json".
pub fn is_voice_model(extension: &str, path: &str) -> (b: bool)
    ensures
        b == (extension@ == "onnx"@ && !contains(path@, ".json"@)),
{
    let e = chars_of(extension);
    let p = chars_of(path);
    let json = has(&p, ".json");
    same_str(&e, "onnx") && !json
}

impl PiperTts {
    /// An engine that uses the model at `model_path` (empty: no model).
    pub fn with_model(model_path: String) -> (e: Self)
        ensures
            e.model() == model_path@,
            e.wf(),
    {
        PiperTts { model_path, sample_rate: 22050 }
    }

    pub closed spec fn model(&self) -> Seq<char> {
        self.model_path@
    }

    pub closed spec fn wf(&self) -> bool {
        self.sample_rate == piper_rate()
    }

    /// The sample rate of the audio the engine gives.
    pub fn sample_rate(&self) -> (r: u32)
        requires
            self.wf(),
        ensures
            r == piper_rate(),
    {
        self.sample_rate
    }

    /// Whether synthesis runs the Python script (the engine has a model).
    pub fn needs_python(&self) -> (b: bool)
        ensures
            b == (self.model().len() > 0),
    {
        !self.model_path.as_str().is_empty()
    }

    /// Half a second of silence: `sample_rate / 2` zero samples.
    pub fn generate_silence(&self) -> (r: Vec<u8>)
        requires
            self.wf(),
        ensures
            r@ == silence(),
    {
        hound_silence(self.sample_rate, (self.sample_rate / 2) as usize)
    }

    /// The Python script that synthesizes `text` into the file `output_path`.
    pub fn python_script(&self, text: &str, output_path: &str) -> (s: String)
        ensures
            s@ == python_script(self.model(), text@, output_path@),
    {
        proof {
            reveal_strlit("\"");
        }
        let tc = chars_of(text);
        let esc = replace_str(&tc, "\"", "\\\"");
        let mut v = chars_of(
            "\nimport sys\ntry:\n    from piper import PiperVoice\n    import wave\n    import io\n    \n    voice = PiperVoice.load(r\"",
        );
        extend_str(&mut v, self.model_path.as_str());
        extend_str(
            &mut v,
            "\")\n    wav_buffer = io.BytesIO()\n    with wave.open(wav_buffer, 'wb') as wav_file:\n        voice.synthesize(\"",
        );
        extend(&mut v, &esc);
        extend_str(&mut v, "\", wav_file)\n    \n    with open(r\"");
        extend_str(&mut v, output_path);
        extend_str(
            &mut v,
            "\", 'wb') as f:\n        f.write(wav_buffer.getvalue())\n    \n    print(\"OK\")\nexcept ImportError:\n    # piper 未安装，使用 pyttsx3 作为备选\n    try:\n        import pyttsx3\n        engine = pyttsx3.init()\n        engine.setProperty('rate', 150)\n        engine.save_to_file(\"",
        );
        extend(&mut v, &tc);
        extend_str(&mut v, "\", r\"");
        extend_str(&mut v, output_path);
        extend_str(
            &mut v,
            "\")\n        engine.runAndWait()\n        print(\"OK\")\n    except:\n        print(\"NO_PIPER\")\nexcept Exception as e:\n    print(f\"ERROR: {e}\")\n",
        );
        string_of(&v)
    }

    /// Whether the script succeeded: it printed exactly "OK" (around
    /// whitespace) and the output file exists.
    pub fn python_succeeded(stdout: &str, output_exists: bool) -> (b: bool)
        ensures
            b == (trim(stdout@) == "OK"@ && output_exists),
    {
        let t = trim_str(stdout);
        crate::text::same_str(&t, "OK") && output_exists
    }

    /// The audio for a text: silence without a model; with one, what the
    /// Python script produced, or silence when it failed.
    pub fn synthesize(&self, python_output: Option<Vec<u8>>) -> (r: Vec<u8>)
        requires
            self.wf(),
        ensures
            r@ == if self.model().len() == 0 {
                silence()
            } else {
                match python_output {
                    Some(w) => w@,
                    None => silence(),
                }
            },
    {
        if !self.needs_python() {
            return self.generate_silence();
        }
        match python_output {
            Some(w) => w,
            None => self.generate_silence(),
        }
    }
}

} // verus!
