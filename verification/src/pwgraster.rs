//! PWG-Raster page codec: the fixed 1796-byte page header with its reserved
//! gaps, and whole pages (header plus band-encoded body) inside a raster
//! file that opens with the `RaS2` synchronisation word.
use vstd::prelude::*;
use vstd::string::StringSliceAdditionalSpecFns;

use crate::color::SrgbColor;
use crate::rle::{spec_step, EncoderModel, ImageEncoder};
use crate::wire::{
    be32, be32i, copy_bytes, push_bytes, push_i32_be, push_u32_be, push_zeros, read_i32_be,
    read_u32_be, u32_of_be, zero_bytes,
};

verus! {

/// The PWG-Raster page header. Fixed-width text fields are NUL-padded byte
/// blocks; reserved regions of the wire layout are not modelled and are
/// written as zero.
#[derive(Debug)]
pub struct PageHeader {
    /// NUL-terminated string saying "PwgRaster"; 64 bytes.
    pub pwg_raster: Vec<u8>,
    /// Media colour name; empty for the default; 64 bytes.
    pub media_color: Vec<u8>,
    /// Media type name; empty for the default; 64 bytes.
    pub media_type: Vec<u8>,
    /// Print optimisation hint; 64 bytes.
    pub print_content_optimize: Vec<u8>,
    /// When to cut the medium; 0 never cuts.
    pub cut_media: u32,
    /// 0 single-sided, 1 double-sided.
    pub duplex: u32,
    /// Horizontal and vertical hardware resolution in dpi.
    pub hw_resolution: (u32, u32),
    /// 1 inserts a separator sheet before the page.
    pub insert_sheet: u32,
    /// Whether to jog pages in the output bin.
    pub jog: u32,
    /// 0 short edge first, 1 long edge first.
    pub leading_edge: u32,
    /// Which source the paper is drawn from.
    pub media_position: u32,
    /// Media weight in grams per square metre; 0 for the default.
    pub media_weight_metric: u32,
    /// Number of sheets to print; 0 for the printer default.
    pub num_copies: u32,
    /// 0 portrait, 1 landscape, 2 reverse portrait, 3 reverse landscape.
    pub orientation: u32,
    /// Page width and height in points.
    pub page_size: (u32, u32),
    /// Whether to rotate the back side of a duplex page.
    pub tumble: u32,
    /// Page width in pixels.
    pub width: u32,
    /// Page height in pixels.
    pub height: u32,
    /// Bits per colour channel.
    pub bits_per_color: u32,
    /// Bits per pixel.
    pub bits_per_pixel: u32,
    /// Uncompressed bytes per scanline; width times three for 8-bit sRGB.
    pub bytes_per_line: u32,
    /// 0 for chunky pixel order.
    pub color_order: u32,
    /// Colour space; 19 is sRGB.
    pub color_space: u32,
    /// Number of colour channels.
    pub num_colors: u32,
    /// Total pages in the document; 0 when unknown.
    pub total_page_count: u32,
    /// 1 normal, -1 reversed.
    pub cross_feed_transform: i32,
    /// 1 normal, -1 reversed.
    pub feed_transform: i32,
    /// Image box; 0 when unknown.
    pub image_box_left: u32,
    pub image_box_top: u32,
    pub image_box_right: u32,
    pub image_box_bottom: u32,
    /// Colour used for bi-level output, packed 0xRRGGBB.
    pub alternate_primary: u32,
    /// 0 default, 1 draft, 2 normal, 3 high.
    pub print_quality: u32,
    pub vendor_identifier: u32,
    pub vendor_length: u32,
    /// Vendor-specific blob; 1088 bytes.
    pub vendor_data: Vec<u8>,
    /// Rendering intent name; 64 bytes.
    pub rendering_intent: Vec<u8>,
    /// Self-describing page size name; 64 bytes.
    pub page_size_name: Vec<u8>,
}

/// Header bytes 0 to 267: the four text blocks and a reserved gap.
pub open spec fn header_text_bytes(h: PageHeader) -> Seq<u8> {
    h.pwg_raster@ + h.media_color@ + h.media_type@ + h.print_content_optimize@ + zero_bytes(12)
}

/// Header bytes 268 to 339: media handling controls.
pub open spec fn header_media_bytes(h: PageHeader) -> Seq<u8> {
    be32(h.cut_media) + be32(h.duplex) + be32(h.hw_resolution.0) + be32(h.hw_resolution.1)
        + zero_bytes(16) + be32(h.insert_sheet) + be32(h.jog) + be32(h.leading_edge) + zero_bytes(
        12,
    ) + be32(h.media_position) + be32(h.media_weight_metric) + zero_bytes(8)
}

/// Header bytes 340 to 383: copies, orientation and page geometry.
pub open spec fn header_geometry_bytes(h: PageHeader) -> Seq<u8> {
    be32(h.num_copies) + be32(h.orientation) + zero_bytes(4) + be32(h.page_size.0) + be32(
        h.page_size.1,
    ) + zero_bytes(8) + be32(h.tumble) + be32(h.width) + be32(h.height) + zero_bytes(4)
}

/// Header bytes 384 to 463: pixel format and page counts.
pub open spec fn header_format_bytes(h: PageHeader) -> Seq<u8> {
    be32(h.bits_per_color) + be32(h.bits_per_pixel) + be32(h.bytes_per_line) + be32(h.color_order)
        + be32(h.color_space) + zero_bytes(16) + be32(h.num_colors) + zero_bytes(28) + be32(
        h.total_page_count,
    ) + be32i(h.cross_feed_transform) + be32i(h.feed_transform)
}

/// Header bytes 464 to 1795: image box, quality, vendor area and names.
pub open spec fn header_tail_bytes(h: PageHeader) -> Seq<u8> {
    be32(h.image_box_left) + be32(h.image_box_top) + be32(h.image_box_right) + be32(
        h.image_box_bottom,
    ) + be32(h.alternate_primary) + be32(h.print_quality) + zero_bytes(20) + be32(
        h.vendor_identifier,
    ) + be32(h.vendor_length) + h.vendor_data@ + zero_bytes(64) + h.rendering_intent@
        + h.page_size_name@
}

/// The header's fixed wire layout, in declared order, reserved gaps as zero.
pub open spec fn spec_header_bytes(h: PageHeader) -> Seq<u8> {
    header_text_bytes(h) + header_media_bytes(h) + header_geometry_bytes(h) + header_format_bytes(h)
        + header_tail_bytes(h)
}

/// The default name of an ISO A4 page, NUL-padded to 64 bytes.
pub open spec fn default_page_size_name() -> Seq<u8> {
    "iso_a4_210x297mm".spec_bytes() + zero_bytes(48)
}

impl PageHeader {
    /// Well-formed: every fixed-width block has its wire width.
    pub open spec fn wf(&self) -> bool {
        &&& self.pwg_raster@.len() == 64
        &&& self.media_color@.len() == 64
        &&& self.media_type@.len() == 64
        &&& self.print_content_optimize@.len() == 64
        &&& self.vendor_data@.len() == 1088
        &&& self.rendering_intent@.len() == 64
        &&& self.page_size_name@.len() == 64
    }

    fn write_text_fields(&self, out: &mut Vec<u8>)
        ensures
            final(out)@ == old(out)@ + header_text_bytes(*self),
    {
        let ghost out0 = out@;
        push_bytes(out, &self.pwg_raster);
        push_bytes(out, &self.media_color);
        push_bytes(out, &self.media_type);
        push_bytes(out, &self.print_content_optimize);
        push_zeros(out, 12);
        proof {
            assert(out@ =~= out0 + header_text_bytes(*self));
        }
    }

    fn write_media_fields(&self, out: &mut Vec<u8>)
        ensures
            final(out)@ == old(out)@ + header_media_bytes(*self),
    {
        let ghost out0 = out@;
        push_u32_be(out, self.cut_media);
        push_u32_be(out, self.duplex);
        push_u32_be(out, self.hw_resolution.0);
        push_u32_be(out, self.hw_resolution.1);
        push_zeros(out, 16);
        push_u32_be(out, self.insert_sheet);
        push_u32_be(out, self.jog);
        push_u32_be(out, self.leading_edge);
        push_zeros(out, 12);
        push_u32_be(out, self.media_position);
        push_u32_be(out, self.media_weight_metric);
        push_zeros(out, 8);
        proof {
            assert(out@ =~= out0 + header_media_bytes(*self));
        }
    }

    fn write_geometry_fields(&self, out: &mut Vec<u8>)
        ensures
            final(out)@ == old(out)@ + header_geometry_bytes(*self),
    {
        let ghost out0 = out@;
        push_u32_be(out, self.num_copies);
        push_u32_be(out, self.orientation);
        push_zeros(out, 4);
        push_u32_be(out, self.page_size.0);
        push_u32_be(out, self.page_size.1);
        push_zeros(out, 8);
        push_u32_be(out, self.tumble);
        push_u32_be(out, self.width);
        push_u32_be(out, self.height);
        push_zeros(out, 4);
        proof {
            assert(out@ =~= out0 + header_geometry_bytes(*self));
        }
    }

    fn write_format_fields(&self, out: &mut Vec<u8>)
        ensures
            final(out)@ == old(out)@ + header_format_bytes(*self),
    {
        let ghost out0 = out@;
        push_u32_be(out, self.bits_per_color);
        push_u32_be(out, self.bits_per_pixel);
        push_u32_be(out, self.bytes_per_line);
        push_u32_be(out, self.color_order);
        push_u32_be(out, self.color_space);
        push_zeros(out, 16);
        push_u32_be(out, self.num_colors);
        push_zeros(out, 28);
        push_u32_be(out, self.total_page_count);
        push_i32_be(out, self.cross_feed_transform);
        push_i32_be(out, self.feed_transform);
        proof {
            assert(out@ =~= out0 + header_format_bytes(*self));
        }
    }

    fn write_tail_fields(&self, out: &mut Vec<u8>)
        ensures
            final(out)@ == old(out)@ + header_tail_bytes(*self),
    {
        let ghost out0 = out@;
        push_u32_be(out, self.image_box_left);
        push_u32_be(out, self.image_box_top);
        push_u32_be(out, self.image_box_right);
        push_u32_be(out, self.image_box_bottom);
        push_u32_be(out, self.alternate_primary);
        push_u32_be(out, self.print_quality);
        push_zeros(out, 20);
        push_u32_be(out, self.vendor_identifier);
        push_u32_be(out, self.vendor_length);
        push_bytes(out, &self.vendor_data);
        push_zeros(out, 64);
        push_bytes(out, &self.rendering_intent);
        push_bytes(out, &self.page_size_name);
        proof {
            assert(out@ =~= out0 + header_tail_bytes(*self));
        }
    }

    /// Serialise the header in its fixed layout: exactly the 1796 bytes of
    /// [`spec_header_bytes`]. Returns the number of bytes written.
    pub fn write_to_stream(&self, out: &mut Vec<u8>) -> (written: usize)
        requires
            self.wf(),
        ensures
            final(out)@ == old(out)@ + spec_header_bytes(*self),
            written == 1796,
            spec_header_bytes(*self).len() == 1796,
    {
        let start_len = out.len();
        let ghost out0 = out@;
        self.write_text_fields(out);
        self.write_media_fields(out);
        self.write_geometry_fields(out);
        self.write_format_fields(out);
        self.write_tail_fields(out);
        proof {
            assert(out@ =~= out0 + spec_header_bytes(*self));
        }
        out.len() - start_len
    }
}

/// The unsigned 32-bit big-endian field at offset `i`.
pub open spec fn spec_u32_at(b: Seq<u8>, i: int) -> u32 {
    u32_of_be(b[i], b[i + 1], b[i + 2], b[i + 3])
}

/// The signed 32-bit big-endian field at offset `i`.
pub open spec fn spec_i32_at(b: Seq<u8>, i: int) -> i32 {
    spec_u32_at(b, i) as i32
}

/// Read a header back from its fixed 1796-byte layout starting at `start`.
/// Reserved regions are ignored; every modelled field is read from its fixed
/// offset.
pub fn decode_header(buf: &Vec<u8>, start: usize) -> (h: PageHeader)
    requires
        start + 1796 <= buf@.len(),
    ensures
        h.wf(),
        h.pwg_raster@ == buf@.subrange(start as int, start as int + 64),
        h.media_color@ == buf@.subrange(start as int + 64, start as int + 128),
        h.media_type@ == buf@.subrange(start as int + 128, start as int + 192),
        h.print_content_optimize@ == buf@.subrange(start as int + 192, start as int + 256),
        h.cut_media == spec_u32_at(buf@, start as int + 268),
        h.duplex == spec_u32_at(buf@, start as int + 272),
        h.hw_resolution.0 == spec_u32_at(buf@, start as int + 276),
        h.hw_resolution.1 == spec_u32_at(buf@, start as int + 280),
        h.insert_sheet == spec_u32_at(buf@, start as int + 300),
        h.jog == spec_u32_at(buf@, start as int + 304),
        h.leading_edge == spec_u32_at(buf@, start as int + 308),
        h.media_position == spec_u32_at(buf@, start as int + 324),
        h.media_weight_metric == spec_u32_at(buf@, start as int + 328),
        h.num_copies == spec_u32_at(buf@, start as int + 340),
        h.orientation == spec_u32_at(buf@, start as int + 344),
        h.page_size.0 == spec_u32_at(buf@, start as int + 352),
        h.page_size.1 == spec_u32_at(buf@, start as int + 356),
        h.tumble == spec_u32_at(buf@, start as int + 368),
        h.width == spec_u32_at(buf@, start as int + 372),
        h.height == spec_u32_at(buf@, start as int + 376),
        h.bits_per_color == spec_u32_at(buf@, start as int + 384),
        h.bits_per_pixel == spec_u32_at(buf@, start as int + 388),
        h.bytes_per_line == spec_u32_at(buf@, start as int + 392),
        h.color_order == spec_u32_at(buf@, start as int + 396),
        h.color_space == spec_u32_at(buf@, start as int + 400),
        h.num_colors == spec_u32_at(buf@, start as int + 420),
        h.total_page_count == spec_u32_at(buf@, start as int + 452),
        h.cross_feed_transform == spec_i32_at(buf@, start as int + 456),
        h.feed_transform == spec_i32_at(buf@, start as int + 460),
        h.image_box_left == spec_u32_at(buf@, start as int + 464),
        h.image_box_top == spec_u32_at(buf@, start as int + 468),
        h.image_box_right == spec_u32_at(buf@, start as int + 472),
        h.image_box_bottom == spec_u32_at(buf@, start as int + 476),
        h.alternate_primary == spec_u32_at(buf@, start as int + 480),
        h.print_quality == spec_u32_at(buf@, start as int + 484),
        h.vendor_identifier == spec_u32_at(buf@, start as int + 508),
        h.vendor_length == spec_u32_at(buf@, start as int + 512),
        h.vendor_data@ == buf@.subrange(start as int + 516, start as int + 1604),
        h.rendering_intent@ == buf@.subrange(start as int + 1668, start as int + 1732),
        h.page_size_name@ == buf@.subrange(start as int + 1732, start as int + 1796),
{
    let _n = buf.len();
    PageHeader {
        pwg_raster: copy_bytes(buf, start, 64),
        media_color: copy_bytes(buf, start + 64, 64),
        media_type: copy_bytes(buf, start + 128, 64),
        print_content_optimize: copy_bytes(buf, start + 192, 64),
        cut_media: read_u32_be(buf, start + 268),
        duplex: read_u32_be(buf, start + 272),
        hw_resolution: (read_u32_be(buf, start + 276), read_u32_be(buf, start + 280)),
        insert_sheet: read_u32_be(buf, start + 300),
        jog: read_u32_be(buf, start + 304),
        leading_edge: read_u32_be(buf, start + 308),
        media_position: read_u32_be(buf, start + 324),
        media_weight_metric: read_u32_be(buf, start + 328),
        num_copies: read_u32_be(buf, start + 340),
        orientation: read_u32_be(buf, start + 344),
        page_size: (read_u32_be(buf, start + 352), read_u32_be(buf, start + 356)),
        tumble: read_u32_be(buf, start + 368),
        width: read_u32_be(buf, start + 372),
        height: read_u32_be(buf, start + 376),
        bits_per_color: read_u32_be(buf, start + 384),
        bits_per_pixel: read_u32_be(buf, start + 388),
        bytes_per_line: read_u32_be(buf, start + 392),
        color_order: read_u32_be(buf, start + 396),
        color_space: read_u32_be(buf, start + 400),
        num_colors: read_u32_be(buf, start + 420),
        total_page_count: read_u32_be(buf, start + 452),
        cross_feed_transform: read_i32_be(buf, start + 456),
        feed_transform: read_i32_be(buf, start + 460),
        image_box_left: read_u32_be(buf, start + 464),
        image_box_top: read_u32_be(buf, start + 468),
        image_box_right: read_u32_be(buf, start + 472),
        image_box_bottom: read_u32_be(buf, start + 476),
        alternate_primary: read_u32_be(buf, start + 480),
        print_quality: read_u32_be(buf, start + 484),
        vendor_identifier: read_u32_be(buf, start + 508),
        vendor_length: read_u32_be(buf, start + 512),
        vendor_data: copy_bytes(buf, start + 516, 1088),
        rendering_intent: copy_bytes(buf, start + 1668, 64),
        page_size_name: copy_bytes(buf, start + 1732, 64),
    }
}

/// A zero-filled block of `n` bytes.
fn zeros_vec(n: usize) -> (r: Vec<u8>)
    ensures
        r@ == zero_bytes(n as int),
{
    let mut r: Vec<u8> = Vec::new();
    push_zeros(&mut r, n);
    proof {
        assert(r@ =~= zero_bytes(n as int));
    }
    r
}

impl Default for PageHeader {
    /// An ISO A4 page at 300 dpi in 8-bit chunky sRGB: 2480 by 3507 pixels,
    /// 7440 bytes per line, page size 595 by 841 points, named
    /// `iso_a4_210x297mm`.
    fn default() -> (h: Self)
        ensures
            h.wf(),
            h.pwg_raster@ == zero_bytes(64),
            h.media_color@ == zero_bytes(64),
            h.media_type@ == zero_bytes(64),
            h.print_content_optimize@ == zero_bytes(64),
            h.cut_media == 0 && h.duplex == 0,
            h.hw_resolution == (300u32, 300u32),
            h.insert_sheet == 0 && h.jog == 0 && h.leading_edge == 0,
            h.media_position == 0 && h.media_weight_metric == 0,
            h.num_copies == 0 && h.orientation == 0,
            h.page_size == (595u32, 841u32),
            h.tumble == 0,
            h.width == 2480 && h.height == 3507,
            h.bits_per_color == 8 && h.bits_per_pixel == 24,
            h.bytes_per_line == 7440,
            h.color_order == 0 && h.color_space == 19,
            h.num_colors == 3 && h.total_page_count == 1,
            h.cross_feed_transform == 1 && h.feed_transform == 1,
            h.image_box_left == 0 && h.image_box_top == 0,
            h.image_box_right == 0 && h.image_box_bottom == 0,
            h.alternate_primary == 0xFFFFFF,
            h.print_quality == 0,
            h.vendor_identifier == 0 && h.vendor_length == 0,
            h.vendor_data@ == zero_bytes(1088),
            h.rendering_intent@ == zero_bytes(64),
            h.page_size_name@ == default_page_size_name(),
    {
        let name_text = "iso_a4_210x297mm";
        proof {
            reveal_strlit("iso_a4_210x297mm");
            assert(vstd::utf8::is_ascii_chars(name_text@));
            vstd::utf8::is_ascii_chars_encode_utf8(name_text@);
            assert(name_text.spec_bytes().len() == 16);
        }
        let name_bytes: Vec<u8> = vstd::slice::slice_to_vec(name_text.as_bytes());
        let mut page_size_name: Vec<u8> = name_bytes;
        push_zeros(&mut page_size_name, 48);
        Self {
            pwg_raster: zeros_vec(64),
            media_color: zeros_vec(64),
            media_type: zeros_vec(64),
            print_content_optimize: zeros_vec(64),
            cut_media: 0,
            duplex: 0,
            hw_resolution: (300, 300),
            insert_sheet: 0,
            jog: 0,
            leading_edge: 0,
            media_position: 0,
            media_weight_metric: 0,
            num_copies: 0,
            orientation: 0,
            page_size: (595, 841),
            tumble: 0,
            width: 2480,
            height: 3507,
            bits_per_color: 8,
            bits_per_pixel: 24,
            bytes_per_line: 7440,
            color_order: 0,
            color_space: 19,
            num_colors: 3,
            total_page_count: 1,
            cross_feed_transform: 1,
            feed_transform: 1,
            image_box_left: 0,
            image_box_top: 0,
            image_box_right: 0,
            image_box_bottom: 0,
            alternate_primary: 0xFFFFFF,
            print_quality: 0,
            vendor_identifier: 0,
            vendor_length: 0,
            vendor_data: zeros_vec(1088),
            rendering_intent: zeros_vec(64),
            page_size_name,
        }
    }
}

/// The scanline at row `y` of a flat bitmap of `width`-pixel rows.
pub open spec fn row_at(bitmap: Seq<SrgbColor>, width: int, y: int) -> Seq<SrgbColor> {
    bitmap.subrange(y * width, (y + 1) * width)
}

/// The bitmap as a top-to-bottom sequence of scanlines.
pub open spec fn rows_of(bitmap: Seq<SrgbColor>, width: int, height: int) -> Seq<Seq<SrgbColor>> {
    Seq::new(height as nat, |y: int| row_at(bitmap, width, y))
}

/// The bytes the band encoder emits for the scanlines from `y` on, started
/// in state `m`: one [`spec_step`] per scanline.
pub open spec fn spec_encode_image_from(
    m: EncoderModel,
    rows: Seq<Seq<SrgbColor>>,
    y: int,
) -> Seq<u8>
    decreases rows.len() - y,
{
    if y < 0 || y >= rows.len() {
        Seq::empty()
    } else {
        spec_step(m, rows[y]).1 + spec_encode_image_from(spec_step(m, rows[y]).0, rows, y + 1)
    }
}

/// The freshly started band encoder for a page of the given geometry.
pub open spec fn initial_encoder(width: int, height: int) -> EncoderModel {
    EncoderModel { width, height, prev: None, written: 0, pending: 0 }
}

/// The band-encoded body of a whole bitmap.
pub open spec fn spec_encode_image(width: int, height: int, bitmap: Seq<SrgbColor>) -> Seq<u8> {
    spec_encode_image_from(initial_encoder(width, height), rows_of(bitmap, width, height), 0)
}

/// One page of a raster file: its header and its bitmap, row-major,
/// `width * height` sRGB pixels.
#[derive(Debug)]
pub struct Page {
    pub header: PageHeader,
    pub bitmap: Vec<SrgbColor>,
}

impl Page {
    /// Well-formed: the header's blocks have their wire widths, the page has
    /// at least one pixel each way, and the bitmap covers it exactly.
    pub open spec fn wf(&self) -> bool {
        &&& self.header.wf()
        &&& self.header.width >= 1
        &&& self.header.height >= 1
        &&& self.bitmap@.len() == self.header.width * self.header.height
    }

    pub fn new(header: PageHeader, bitmap: Vec<SrgbColor>) -> (p: Self)
        requires
            header.wf(),
            header.width >= 1,
            header.height >= 1,
            bitmap@.len() == header.width * header.height,
        ensures
            p.wf(),
            p.header == header,
            p.bitmap == bitmap,
    {
        Self { header, bitmap }
    }

    /// Copy scanline `y` of the bitmap into a fresh vector.
    fn extract_row(&self, y: u32) -> (row: Vec<SrgbColor>)
        requires
            self.wf(),
            y < self.header.height,
        ensures
            row@ == row_at(self.bitmap@, self.header.width as int, y as int),
            row@.len() == self.header.width,
    {
        let w = self.header.width as usize;
        let ghost wi = self.header.width as int;
        let ghost hi = self.header.height as int;
        let ghost yi = y as int;
        let _n = self.bitmap.len();
        proof {
            assert(self.bitmap@.len() == wi * hi);
            assert(yi * wi + wi <= wi * hi) by (nonlinear_arith)
                requires
                    yi + 1 <= hi,
                    wi >= 0,
            ;
            assert(yi * wi >= 0) by (nonlinear_arith)
                requires
                    yi >= 0 && wi >= 0,
            ;
        }
        let base: usize = (y as usize) * w;
        let mut row: Vec<SrgbColor> = Vec::new();
        let mut x: usize = 0;
        while x < w
            invariant
                x <= w,
                base == yi * wi,
                w == wi,
                base + w <= self.bitmap@.len(),
                self.bitmap@.len() <= usize::MAX,
                row@ == self.bitmap@.subrange(base as int, base as int + x as int),
            decreases w - x,
        {
            let p = self.bitmap[base + x];
            row.push(p);
            proof {
                assert(row@ =~= self.bitmap@.subrange(base as int, base as int + x as int + 1));
            }
            x = x + 1;
        }
        proof {
            assert((yi + 1) * wi == yi * wi + wi) by (nonlinear_arith);
            assert(row@ =~= row_at(self.bitmap@, wi, yi));
        }
        row
    }

    /// Serialise the page: the 1796-byte header, then the band-encoded body
    /// of [`spec_encode_image`]. Returns the number of bytes written.
    pub fn write_to_stream(&self, out: &mut Vec<u8>) -> (written: usize)
        requires
            self.wf(),
        ensures
            final(out)@ == old(out)@ + spec_header_bytes(self.header) + spec_encode_image(
                self.header.width as int,
                self.header.height as int,
                self.bitmap@,
            ),
            written == 1796 + spec_encode_image(
                self.header.width as int,
                self.header.height as int,
                self.bitmap@,
            ).len(),
    {
        let start_len = out.len();
        let ghost out0 = out@;
        self.header.write_to_stream(out);
        let ghost after_header = out@;
        let ghost wi = self.header.width as int;
        let ghost hi = self.header.height as int;
        let ghost rows = rows_of(self.bitmap@, wi, hi);
        let mut enc = ImageEncoder::new(self.header.width, self.header.height);
        let mut y: u32 = 0;
        while y < self.header.height
            invariant
                self.wf(),
                wi == self.header.width as int,
                hi == self.header.height as int,
                rows == rows_of(self.bitmap@, wi, hi),
                y <= self.header.height,
                enc.wf(),
                enc@.width == wi,
                enc@.height == hi,
                enc@.written == y as int,
                out@ + spec_encode_image_from(enc@, rows, y as int) == after_header
                    + spec_encode_image_from(initial_encoder(wi, hi), rows, 0),
            decreases self.header.height - y,
        {
            let ghost m_before = enc@;
            let row = self.extract_row(y);
            proof {
                assert(rows[y as int] == row@);
            }
            enc.write_row(out, row);
            proof {
                assert(spec_encode_image_from(m_before, rows, y as int) == spec_step(
                    m_before,
                    rows[y as int],
                ).1 + spec_encode_image_from(
                    spec_step(m_before, rows[y as int]).0,
                    rows,
                    y as int + 1,
                ));
                assert(out@ + spec_encode_image_from(enc@, rows, y as int + 1) =~= after_header
                    + spec_encode_image_from(initial_encoder(wi, hi), rows, 0));
            }
            y = y + 1;
        }
        proof {
            assert(spec_encode_image_from(enc@, rows, hi) == Seq::<u8>::empty());
            assert(out@ =~= after_header + spec_encode_image(wi, hi, self.bitmap@));
            assert(out@ =~= out0 + spec_header_bytes(self.header) + spec_encode_image(
                wi,
                hi,
                self.bitmap@,
            ));
        }
        out.len() - start_len
    }
}

/// The `RaS2` synchronisation word that opens a big-endian raster file.
pub open spec fn sync_word_bytes() -> Seq<u8> {
    seq![0x52u8, 0x61u8, 0x53u8, 0x32u8]
}

/// Write the `RaS2` synchronisation word.
pub fn push_sync_word(out: &mut Vec<u8>)
    ensures
        final(out)@ == old(out)@ + sync_word_bytes(),
{
    let ghost out0 = out@;
    out.push(0x52u8);
    out.push(0x61u8);
    out.push(0x53u8);
    out.push(0x32u8);
    proof {
        assert(out@ =~= out0 + sync_word_bytes());
    }
}

} // verus!
