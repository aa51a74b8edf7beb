use vstd::prelude::*;

verus! {

/// What to download and where to put it.
pub struct App {
    pub command: Commands,
    /// Where the downloaded series goes.
    pub output_folder: String,
    /// How many chapters are downloaded at the same time.
    pub concurrent_chapters: usize,
    /// A proxy locator; empty for none.
    pub proxy: String,
}

/// The kind of series to download.
#[derive(Clone, Debug)]
pub enum Commands {
    Manga {
        /// Whether to pack the pages into one archive.
        compress: bool,
        /// A chapter range `lower:upper`, both ends included; empty for all.
        filter: String,
        url: String,
    },
    Novel {
        url: String,
        /// A chapter range `lower:upper`, both ends included; empty for all.
        filter: String,
        format: NovelFormat,
    },
}

/// How a downloaded novel is packaged.
#[derive(Clone, Copy, Debug, PartialEq, Eq, Structural)]
pub enum NovelFormat {
    /// One text file per chapter.
    Txt,
    /// A single e-book.
    Epub,
}

impl Default for NovelFormat {
    fn default() -> (r: NovelFormat)
        ensures
            r == NovelFormat::Txt,
    {
        NovelFormat::Txt
    }
}

impl NovelFormat {
    /// The name of the format, as written on the command line.
    pub fn as_str(&self) -> (r: &'static str)
        ensures
            r@ == match self {
                NovelFormat::Txt => "txt"@,
                NovelFormat::Epub => "epub"@,
            },
    {
        match self {
            NovelFormat::Txt => "txt",
            NovelFormat::Epub => "epub",
        }
    }
}

} // verus!
