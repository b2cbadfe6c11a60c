//! The options of the command line and the answers to its prompts.
use vstd::prelude::*;

use crate::error::Error;
use crate::number::parse_unsigned;
use crate::number::parse_unsigned_chars;
use crate::text::{chars_of, string_from_chars, trim, trim_chars, TrimSet};

verus! {

/// The options of the command line.
#[derive(Debug)]
pub struct Args {
    /// A link, a BV id, an av number or a numeric aid; asked for when absent.
    pub input: Option<String>,
    /// The output format; asked for when absent.
    pub format: Option<OutputFormat>,
    pub quality: Quality,
    pub page: Option<usize>,
    pub output_dir: String,
    pub cookie: Option<String>,
    pub cookie_file: Option<String>,
    pub ffmpeg: String,
    pub keep_temp: bool,
}

/// The container that a download ends up in.
#[derive(Clone, Copy, Debug, PartialEq, Eq, Structural)]
pub enum OutputFormat {
    Mp4,
    Mp3,
}

impl OutputFormat {
    pub open spec fn spec_extension(self) -> Seq<char> {
        match self {
            OutputFormat::Mp4 => "mp4"@,
            OutputFormat::Mp3 => "mp3"@,
        }
    }

    /// The file extension of the format.
    pub fn extension(self) -> (ext: &'static str)
        ensures
            ext@ == self.spec_extension(),
    {
        match self {
            OutputFormat::Mp4 => "mp4",
            OutputFormat::Mp3 => "mp3",
        }
    }
}

/// The qualities that can be asked for on the command line.
#[derive(Clone, Copy, Debug, PartialEq, Eq, Structural)]
pub enum Quality {
    Q4k,
    P1080,
    P720,
    P360,
}

impl Quality {
    pub open spec fn spec_qn(self) -> u32 {
        match self {
            Quality::Q4k => 120,
            Quality::P1080 => 80,
            Quality::P720 => 64,
            Quality::P360 => 16,
        }
    }

    /// The quality number (`qn`) that the API knows the quality by.
    pub fn qn(self) -> (qn: u32)
        ensures
            qn == self.spec_qn(),
    {
        match self {
            Quality::Q4k => 120,
            Quality::P1080 => 80,
            Quality::P720 => 64,
            Quality::P360 => 16,
        }
    }
}

/// The page to download: the one given with `--page`, else the one named in the input.
pub fn chosen_page(page_option: Option<usize>, input_page: Option<usize>) -> (page: Option<usize>)
    ensures
        page == (if page_option is Some {
            page_option
        } else {
            input_page
        }),
{
    match page_option {
        Some(p) => Some(p),
        None => input_page,
    }
}

/// Whether the offered qualities are listed (`.0`: for MP4 when the API offers some)
/// and whether the user is asked to choose one (`.1`: when listed and the input
/// itself was typed at the prompt).
pub fn quality_prompt_plan(format: OutputFormat, offered_count: usize, prompted_input: bool) -> (r: (
    bool,
    bool,
))
    ensures
        r.0 == (format == OutputFormat::Mp4 && offered_count > 0),
        r.1 == (r.0 && prompted_input),
{
    let list = match format {
        OutputFormat::Mp4 => offered_count > 0,
        OutputFormat::Mp3 => false,
    };
    (list, list && prompted_input)
}

/// The input typed at the prompt, trimmed; an error when nothing was typed.
pub fn input_from_line(line: &str) -> (r: Result<String, Error>)
    ensures
        trim(line@).len() == 0 ==> r matches Err(Error::EmptyInput),
        trim(line@).len() > 0 ==> (r matches Ok(s) && s@ == trim(line@)),
{
    let cs = chars_of(line);
    let trimmed = trim_chars(&cs, TrimSet::Whitespace);
    if trimmed.len() == 0 {
        return Err(Error::EmptyInput);
    }
    Ok(string_from_chars(&trimmed))
}

/// The format chosen at the prompt: empty or `1` for MP4, `2` for MP3.
pub open spec fn format_choice(line: Seq<char>) -> Option<OutputFormat> {
    let choice = trim(line);
    if choice.len() == 0 || choice == seq!['1'] {
        Some(OutputFormat::Mp4)
    } else if choice == seq!['2'] {
        Some(OutputFormat::Mp3)
    } else {
        None
    }
}

/// The format chosen at the prompt.
pub fn format_from_choice(line: &str) -> (r: Result<OutputFormat, Error>)
    ensures
        format_choice(line@) matches Some(f) ==> r == Ok::<OutputFormat, Error>(f),
        format_choice(line@) is None ==> r matches Err(Error::InvalidFormatChoice),
{
    let cs = chars_of(line);
    let choice = trim_chars(&cs, TrimSet::Whitespace);
    if choice.len() == 0 {
        return Ok(OutputFormat::Mp4);
    }
    if choice.len() == 1 && choice[0] == '1' {
        proof {
            assert(choice@ =~= seq!['1']);
        }
        return Ok(OutputFormat::Mp4);
    }
    if choice.len() == 1 && choice[0] == '2' {
        proof {
            assert(choice@ =~= seq!['2']);
        }
        return Ok(OutputFormat::Mp3);
    }
    proof {
        if choice@ == seq!['1'] || choice@ == seq!['2'] {
            assert(choice@[0] == choice@[0]);
        }
    }
    Err(Error::InvalidFormatChoice)
}

/// The quality chosen at the prompt, by its number in the list shown:
/// nothing typed keeps the default (`Ok(None)`), a number in `1..=qualities.len()`
/// chooses that quality, anything else is an error.
pub fn quality_from_choice(line: &str, qualities: &[u32]) -> (r: Result<Option<u32>, Error>)
    ensures
        ({
            let choice = trim(line@);
            if choice.len() == 0 {
                r == Ok::<Option<u32>, Error>(None)
            } else {
                match parse_unsigned(choice, usize::MAX as nat) {
                    None => (r matches Err(Error::InvalidQualityChoice { choice: c }) && c@
                        == choice),
                    Some(n) => if 1 <= n <= qualities@.len() {
                        r == Ok::<Option<u32>, Error>(Some(qualities@[n - 1]))
                    } else {
                        (r matches Err(Error::QualityChoiceOutOfRange { count }) && count
                            == qualities@.len())
                    },
                }
            }
        }),
{
    let cs = chars_of(line);
    let choice = trim_chars(&cs, TrimSet::Whitespace);
    if choice.len() == 0 {
        return Ok(None);
    }
    let parsed = parse_unsigned_chars(&choice, usize::MAX as u64);
    match parsed {
        None => Err(Error::InvalidQualityChoice { choice: string_from_chars(&choice) }),
        Some(n) => {
            if n == 0 || n > qualities.len() as u64 {
                Err(Error::QualityChoiceOutOfRange { count: qualities.len() })
            } else {
                let index = (n - 1) as usize;
                Ok(Some(qualities[index]))
            }
        },
    }
}

} // verus!
