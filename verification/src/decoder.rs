//! Reading the pixel density out of the metadata of an image file: the
//! resolution tags of its Exif block, else the density of its JFIF header.

use exif::In;
use exif::Tag;
use exif::Value;
use vstd::prelude::*;
use crate::dpi::per_inch_from_per_centimeter;
use crate::dpi::Dpi;

verus! {

/// The resolution tags of the primary image of an Exif block: the unit and
/// the two resolutions, each a fraction of two 32-bit numbers.
#[derive(Clone, Copy, Debug, PartialEq, Eq, Structural)]
pub struct ExifResolution {
    pub unit: u32,
    pub x_numerator: u32,
    pub x_denominator: u32,
    pub y_numerator: u32,
    pub y_denominator: u32,
}

/// What a reader of JFIF segments found next.
#[derive(Clone, Copy, Debug, PartialEq, Eq, Structural)]
pub enum JfifSegment {
    /// The end of the image.
    End,
    /// The JFIF header, with its density unit and densities.
    Header { unit: u8, x_density: u16, y_density: u16 },
    /// Any other segment.
    Other,
}

/// A reader of the segments of a JPEG file, one after the other.
#[verifier::external_body]
pub struct JfifSegments {
    reader: jfifdump::Reader<std::io::Cursor<Vec<u8>>>,
}

/// The segments that `jfifdump` reads from the start of a file, up to the
/// first one that it cannot read; none when the bytes do not start as a
/// JPEG file does.
pub uninterp spec fn jfif_segments(file_contents: Seq<u8>) -> Seq<JfifSegment>;

/// The segments that a reader has yet to hand out, up to the first one that
/// it cannot read.
pub uninterp spec fn segments_ahead(segments: JfifSegments) -> Seq<JfifSegment>;

/// The resolution tags that the crate `exif` reads out of raw Exif data, if
/// it can parse the data and all three tags are there in the expected form.
pub uninterp spec fn exif_resolution_tags(exif_raw: Seq<u8>) -> Option<ExifResolution>;

/// Parses raw Exif data with `exif::Reader::read_raw` and reads, with
/// `Exif::get_field` for the primary image, the tag `ResolutionUnit` (its
/// first unsigned integer, by `Value::get_uint`) and the tags `XResolution`
/// and `YResolution` (the first fraction of each). Taken on trust: the
/// result depends on the bytes alone. It is `None` when the data does not
/// parse, a tag is missing or a tag has another type.
#[verifier::external_body]
fn read_exif_resolution(exif_raw: &[u8]) -> (r: Option<ExifResolution>)
    ensures
        r == exif_resolution_tags(exif_raw@),
{
    let parsed = exif::Reader::new().read_raw(exif_raw.to_vec()).ok()?;
    let unit = parsed.get_field(Tag::ResolutionUnit, In::PRIMARY)?.value.get_uint(0)?;
    let x = parsed.get_field(Tag::XResolution, In::PRIMARY)?;
    let y = parsed.get_field(Tag::YResolution, In::PRIMARY)?;
    let (x, y) = match (&x.value, &y.value) {
        (Value::Rational(x), Value::Rational(y)) => (x.first()?, y.first()?),
        _ => return None,
    };
    let (x_numerator, x_denominator, y_numerator, y_denominator) = (x.num, x.denom, y.num, y.denom);
    Some(ExifResolution { unit, x_numerator, x_denominator, y_numerator, y_denominator })
}

/// Opens a reader over a copy of the bytes with `jfifdump::Reader::new`,
/// which succeeds when the bytes start with the JPEG start marker. Taken on
/// trust: which segments lie ahead of the opened reader depends on the
/// bytes alone.
#[verifier::external_body]
fn open_jfif(file_contents: &[u8]) -> (r: Option<JfifSegments>)
    ensures
        r is None ==> jfif_segments(file_contents@).len() == 0,
        r matches Some(segments) ==> segments_ahead(segments) == jfif_segments(file_contents@),
{
    let reader = jfifdump::Reader::new(std::io::Cursor::new(file_contents.to_vec())).ok()?;
    Some(JfifSegments { reader })
}

/// Reads the next segment with `jfifdump::Reader::next_segment` and tells
/// the end of the image, the JFIF header and all other segments apart.
/// Taken on trust: the segment handed out is the first of those ahead, and
/// the rest stay ahead; `None` comes when the reader fails, which it does
/// at the end of the bytes at the latest, so that only finitely many
/// segments are ever ahead.
#[verifier::external_body]
fn next_jfif_segment(segments: &mut JfifSegments) -> (r: Option<JfifSegment>)
    ensures
        segments_ahead(*old(segments)).len() == 0 ==> r is None,
        segments_ahead(*old(segments)).len() > 0 ==> r == Some(segments_ahead(*old(segments))[0])
            && segments_ahead(*final(segments)) == segments_ahead(*old(segments)).drop_first(),
{
    match segments.reader.next_segment().ok()?.kind {
        jfifdump::SegmentKind::Eoi => Some(JfifSegment::End),
        jfifdump::SegmentKind::App0Jfif(header) => Some(
            JfifSegment::Header {
                unit: header.unit,
                x_density: header.x_density,
                y_density: header.y_density,
            },
        ),
        _ => Some(JfifSegment::Other),
    }
}

/// The whole number that a fraction is taken for: the quotient, rounded
/// down. A fraction over zero counts as the largest number, zero over zero
/// as zero.
pub open spec fn whole_part(numerator: u32, denominator: u32) -> u32 {
    if denominator == 0 {
        if numerator == 0 {
            0
        } else {
            u32::MAX
        }
    } else {
        numerator / denominator
    }
}

/// The density that Exif resolution tags stand for: unit 2 is pixels per
/// inch, unit 3 pixels per centimetre; any other unit gives no density.
pub open spec fn dpi_of_exif_resolution(tags: ExifResolution) -> Option<Dpi> {
    let x = whole_part(tags.x_numerator, tags.x_denominator);
    let y = whole_part(tags.y_numerator, tags.y_denominator);
    if tags.unit == 2 {
        Some(Dpi { x, y })
    } else if tags.unit == 3 {
        Some(Dpi { x: per_inch_from_per_centimeter(x), y: per_inch_from_per_centimeter(y) })
    } else {
        None
    }
}

/// The density that a JFIF header stands for: unit 1 is pixels per inch,
/// unit 2 pixels per centimetre; any other unit gives no density.
pub open spec fn dpi_of_jfif_density(unit: u8, x_density: u16, y_density: u16) -> Option<Dpi> {
    if unit == 1 {
        Some(Dpi { x: x_density as u32, y: y_density as u32 })
    } else if unit == 2 {
        Some(
            Dpi {
                x: per_inch_from_per_centimeter(x_density as u32),
                y: per_inch_from_per_centimeter(y_density as u32),
            },
        )
    } else {
        None
    }
}

fn fraction_to_whole(numerator: u32, denominator: u32) -> (r: u32)
    ensures
        r == whole_part(numerator, denominator),
{
    if denominator == 0 {
        if numerator == 0 {
            0
        } else {
            u32::MAX
        }
    } else {
        numerator / denominator
    }
}

/// Turns Exif resolution tags into a density in pixels per inch.
pub fn dpi_from_exif_resolution(tags: ExifResolution) -> (r: Option<Dpi>)
    ensures
        r == dpi_of_exif_resolution(tags),
{
    let x = fraction_to_whole(tags.x_numerator, tags.x_denominator);
    let y = fraction_to_whole(tags.y_numerator, tags.y_denominator);
    if tags.unit == 2 {
        Some(Dpi::from(x, y))
    } else if tags.unit == 3 {
        Some(Dpi::from_centimeter(x, y))
    } else {
        None
    }
}

/// Turns the density of a JFIF header into a density in pixels per inch.
pub fn dpi_from_jfif_density(unit: u8, x_density: u16, y_density: u16) -> (r: Option<Dpi>)
    ensures
        r == dpi_of_jfif_density(unit, x_density, y_density),
{
    if unit == 1 {
        Some(Dpi::from(x_density as u32, y_density as u32))
    } else if unit == 2 {
        Some(Dpi::from_centimeter(x_density as u32, y_density as u32))
    } else {
        None
    }
}

/// The density that the resolution tags of raw Exif data give.
pub open spec fn dpi_of_exif(exif_raw: Seq<u8>) -> Option<Dpi> {
    match exif_resolution_tags(exif_raw) {
        Some(tags) => dpi_of_exif_resolution(tags),
        None => None,
    }
}

/// Reads the pixel density from raw Exif data.
pub fn read_dpi_from_exif(exif_raw: &[u8]) -> (r: Option<Dpi>)
    ensures
        r == dpi_of_exif(exif_raw@),
{
    match read_exif_resolution(exif_raw) {
        Some(tags) => dpi_from_exif_resolution(tags),
        None => None,
    }
}

/// The density that a run of segments gives: that of its JFIF header, if
/// the header comes before the end of the image and before the segments
/// run out.
pub open spec fn dpi_of_jfif_segments(segments: Seq<JfifSegment>) -> Option<Dpi>
    decreases segments.len(),
{
    if segments.len() == 0 {
        None
    } else {
        match segments[0] {
            JfifSegment::End => None,
            JfifSegment::Header { unit, x_density, y_density } => dpi_of_jfif_density(
                unit,
                x_density,
                y_density,
            ),
            JfifSegment::Other => dpi_of_jfif_segments(segments.drop_first()),
        }
    }
}

/// The density that the JFIF header of a file gives.
pub open spec fn dpi_of_jfif(file_contents: Seq<u8>) -> Option<Dpi> {
    dpi_of_jfif_segments(jfif_segments(file_contents))
}

/// Reads the pixel density from the JFIF header of a JPEG file: the
/// segments are read up to the header or the end of the image, whichever
/// comes first.
pub fn read_dpi_from_jfif(file_contents: &[u8]) -> (r: Option<Dpi>)
    ensures
        r == dpi_of_jfif(file_contents@),
{
    let mut reader = match open_jfif(file_contents) {
        Some(reader) => reader,
        None => {
            return None;
        },
    };
    loop
        invariant
            dpi_of_jfif(file_contents@) == dpi_of_jfif_segments(segments_ahead(reader)),
        decreases segments_ahead(reader).len(),
    {
        match next_jfif_segment(&mut reader) {
            None => {
                return None;
            },
            Some(JfifSegment::End) => {
                return None;
            },
            Some(JfifSegment::Header { unit, x_density, y_density }) => {
                return dpi_from_jfif_density(unit, x_density, y_density);
            },
            Some(JfifSegment::Other) => {},
        }
    }
}

/// The density that the metadata of a file gives: that of the Exif data if
/// there is one, else that of the JFIF header.
pub open spec fn dpi_of_metadata(file_contents: Seq<u8>, exif: Seq<u8>) -> Option<Dpi> {
    let from_exif = dpi_of_exif(
        if exif.len() == 0 {
            file_contents
        } else {
            exif
        },
    );
    if from_exif is Some {
        from_exif
    } else {
        dpi_of_jfif(file_contents)
    }
}

/// Reads the pixel density from the metadata of a file: from the Exif data
/// if that gives one, else from the JFIF header. Where no Exif data was
/// decoded beforehand (`exif` is empty), the whole file is searched for it.
pub fn read_from_bytes(file_contents: &[u8], exif: &[u8]) -> (r: Option<Dpi>)
    ensures
        r == dpi_of_metadata(file_contents@, exif@),
{
    let chosen = if exif.len() == 0 {
        file_contents
    } else {
        exif
    };
    match read_dpi_from_exif(chosen) {
        Some(dpi) => Some(dpi),
        None => read_dpi_from_jfif(file_contents),
    }
}

} // verus!
