use flate2::{Compress, Compression, FlushCompress};
use std::cell::RefCell;
use vnc::protocol::PixelFormat;
use vnc::zrle::{
    decode_tiles, hand_over, plan_first_step, plan_next_step, Decoder, InflateStatus, InflateStep,
    Layout,
};
use vnc::{Error, IoError, Rect};

fn deflate(compressor: &mut Compress, data: &[u8]) -> Vec<u8> {
    let mut out = Vec::with_capacity(data.len() * 2 + 128);
    compressor.compress_vec(data, &mut out, FlushCompress::Sync).unwrap();
    out
}

fn rgb_little_endian() -> PixelFormat {
    let mut format = PixelFormat::new_rgb8888();
    format.big_endian = false;
    format
}

#[test]
fn zrle_single_colour_tile_expands_to_one_pixel() {
    let mut compressor = Compress::new(Compression::default(), true);
    let input = deflate(&mut compressor, &[0x01, 0x11, 0x22, 0x33]);
    let mut decoder = Decoder::new();
    let tiles = decoder.decode_all(rgb_little_endian(), Rect::new(0, 0, 1, 1), &input).unwrap();
    assert_eq!(tiles.len(), 1);
    assert_eq!(tiles[0].rect, Rect::new(0, 0, 1, 1));
    assert_eq!(tiles[0].pixels, vec![0x11, 0x22, 0x33, 0x00]);
}

#[test]
fn zrle_decoder_keeps_its_dictionary_between_rectangles() {
    let mut compressor = Compress::new(Compression::default(), true);
    let first = deflate(&mut compressor, &[0x01, 0x11, 0x22, 0x33]);
    let second = deflate(&mut compressor, &[0x01, 0x44, 0x55, 0x66]);
    let mut decoder = Decoder::new();
    let format = PixelFormat::new_rgb8888();
    let tiles = decoder.decode_all(format, Rect::new(0, 0, 2, 2), &first).unwrap();
    assert_eq!(tiles[0].pixels.len(), 16);
    assert_eq!(&tiles[0].pixels[0..4], &[0x00, 0x11, 0x22, 0x33]);
    let tiles = decoder.decode_all(format, Rect::new(5, 6, 1, 1), &second).unwrap();
    assert_eq!(tiles[0].rect, Rect::new(5, 6, 1, 1));
    assert_eq!(tiles[0].pixels, vec![0x00, 0x44, 0x55, 0x66]);
}

#[test]
fn zrle_corrupt_stream_is_invalid_data() {
    let mut decoder = Decoder::new();
    let r = decoder.decode_all(PixelFormat::new_rgb8888(), Rect::new(0, 0, 1, 1), &[1, 2, 3, 4, 5]);
    assert!(matches!(r, Err(Error::Io(IoError::InvalidData))));
}

#[test]
fn layout_of_rgb8888_is_compact() {
    let layout = Layout::of(&PixelFormat::new_rgb8888());
    assert_eq!(layout.pixel, 4);
    assert_eq!(layout.cpixel, 3);
    assert!(layout.compact);
    assert!(layout.pad_first);
    let layout = Layout::of(&rgb_little_endian());
    assert!(layout.compact);
    assert!(!layout.pad_first);
}

#[test]
fn raw_tile_is_copied_pixel_by_pixel() {
    let format = rgb_little_endian();
    let data = [0u8, 1, 2, 3, 4, 5, 6];
    let tiles = decode_tiles(&format, Rect::new(10, 20, 2, 1), &data).unwrap();
    assert_eq!(tiles.len(), 1);
    assert_eq!(tiles[0].rect, Rect::new(10, 20, 2, 1));
    assert_eq!(tiles[0].pixels, vec![1, 2, 3, 0, 4, 5, 6, 0]);
}

fn eight_bit() -> PixelFormat {
    PixelFormat {
        bits_per_pixel: 8,
        depth: 8,
        big_endian: false,
        true_colour: true,
        red_max: 7,
        green_max: 7,
        blue_max: 3,
        red_shift: 5,
        green_shift: 2,
        blue_shift: 0,
    }
}

fn one_tile(format: &PixelFormat, width: u16, height: u16, data: &[u8]) -> Result<Vec<u8>, Error> {
    let mut tiles = decode_tiles(format, Rect::new(0, 0, width, height), data)?;
    assert_eq!(tiles.len(), 1);
    assert_eq!(tiles[0].rect, Rect::new(0, 0, width, height));
    Ok(tiles.remove(0).pixels)
}

#[test]
fn solid_tile_repeats_its_colour() {
    assert_eq!(one_tile(&eight_bit(), 3, 2, &[1, 0xAA]).unwrap(), vec![0xAA; 6]);
    let pixels = one_tile(&PixelFormat::new_rgb8888(), 2, 1, &[1, 1, 2, 3]).unwrap();
    assert_eq!(pixels, vec![0, 1, 2, 3, 0, 1, 2, 3]);
}

#[test]
fn packed_palette_of_two_takes_one_bit_to_the_pixel() {
    let data = [2, 0x10, 0x20, 0xAA, 0x80, 0x00, 0x40];
    let pixels = one_tile(&eight_bit(), 10, 2, &data).unwrap();
    let mut expected = vec![0x20, 0x10, 0x20, 0x10, 0x20, 0x10, 0x20, 0x10, 0x20, 0x10];
    expected.extend_from_slice(&[0x10; 9]);
    expected.push(0x20);
    assert_eq!(pixels, expected);
}

#[test]
fn packed_palette_of_four_takes_two_bits_to_the_pixel() {
    assert_eq!(one_tile(&eight_bit(), 3, 1, &[4, 1, 2, 3, 4, 0xC8]).unwrap(), vec![4, 1, 3]);
    assert_eq!(one_tile(&eight_bit(), 5, 1, &[3, 7, 8, 9, 0x18, 0x40]).unwrap(), vec![7, 8, 9, 7, 8]);
}

#[test]
fn packed_palette_of_sixteen_takes_four_bits_to_the_pixel() {
    let mut data = vec![16];
    data.extend(0..16u8);
    data.extend_from_slice(&[0xF0, 0x70]);
    assert_eq!(one_tile(&eight_bit(), 3, 1, &data).unwrap(), vec![15, 0, 7]);
}

#[test]
fn packed_index_beyond_the_palette_is_refused() {
    let r = one_tile(&eight_bit(), 1, 1, &[5, 1, 2, 3, 4, 5, 0x50]);
    assert!(matches!(r, Err(Error::Unexpected("zrle palette index"))));
    let r = one_tile(&eight_bit(), 2, 1, &[3, 1, 2, 3, 0x30]);
    assert!(matches!(r, Err(Error::Unexpected("zrle palette index"))));
}

#[test]
fn plain_runs_repeat_their_pixel() {
    let pixels = one_tile(&eight_bit(), 4, 1, &[128, 0x11, 2, 0x22, 0]).unwrap();
    assert_eq!(pixels, vec![0x11, 0x11, 0x11, 0x22]);
    let mut data = vec![128, 0x33];
    data.extend_from_slice(&[255; 16]);
    data.push(15);
    assert_eq!(one_tile(&eight_bit(), 64, 64, &data).unwrap(), vec![0x33; 4096]);
    let pixels = one_tile(&PixelFormat::new_bgr8888(), 2, 1, &[128, 9, 8, 7, 1]).unwrap();
    assert_eq!(pixels, vec![0, 9, 8, 7, 0, 9, 8, 7]);
}

#[test]
fn run_beyond_the_tile_is_refused() {
    let r = one_tile(&eight_bit(), 2, 1, &[128, 0x11, 2]);
    assert!(matches!(r, Err(Error::Unexpected("zrle run length"))));
    let mut data = vec![128, 0x33];
    data.extend_from_slice(&[255; 300]);
    data.push(0);
    let r = one_tile(&eight_bit(), 64, 64, &data);
    assert!(matches!(r, Err(Error::Unexpected("zrle run length"))));
    let r = one_tile(&eight_bit(), 2, 1, &[128, 0x11, 255]);
    assert!(matches!(r, Err(Error::Io(IoError::UnexpectedEof))));
}

#[test]
fn palette_runs_choose_their_colour_by_index() {
    let data = [130, 0xA, 0xB, 0x00, 0x81, 2, 0x00];
    assert_eq!(one_tile(&eight_bit(), 5, 1, &data).unwrap(), vec![0xA, 0xB, 0xB, 0xB, 0xA]);
    assert_eq!(one_tile(&eight_bit(), 2, 1, &[129, 7, 0x80, 1]).unwrap(), vec![7, 7]);
    let r = one_tile(&eight_bit(), 2, 1, &[130, 1, 2, 0x02, 0x00]);
    assert!(matches!(r, Err(Error::Unexpected("zrle palette index"))));
    let r = one_tile(&eight_bit(), 2, 1, &[130, 1, 2, 0x81, 2]);
    assert!(matches!(r, Err(Error::Unexpected("zrle run length"))));
}

#[test]
fn subencodings_without_a_meaning_are_refused() {
    for size in [17u8, 64, 127] {
        let mut data = vec![size];
        data.extend(std::iter::repeat(0).take(size as usize));
        let r = one_tile(&eight_bit(), 1, 1, &data);
        assert!(matches!(r, Err(Error::Unexpected("zrle subencoding"))));
    }
    assert!(matches!(one_tile(&eight_bit(), 1, 1, &[17, 0]), Err(Error::Io(IoError::UnexpectedEof))));
}

#[test]
fn data_must_hold_the_tiles_and_nothing_else() {
    assert!(matches!(
        one_tile(&eight_bit(), 1, 1, &[1, 5, 9]),
        Err(Error::Unexpected("leftover ZRLE byte data"))
    ));
    assert!(matches!(one_tile(&eight_bit(), 1, 1, &[]), Err(Error::Io(IoError::UnexpectedEof))));
    assert!(matches!(one_tile(&eight_bit(), 1, 1, &[0]), Err(Error::Io(IoError::UnexpectedEof))));
    assert!(matches!(one_tile(&eight_bit(), 2, 2, &[0, 1, 2, 3]), Err(Error::Io(IoError::UnexpectedEof))));
    assert!(matches!(
        decode_tiles(&eight_bit(), Rect::new(65535, 0, 2, 1), &[1, 1]),
        Err(Error::Unexpected("zrle rectangle"))
    ));
    assert!(matches!(
        decode_tiles(&eight_bit(), Rect::new(0, 65000, 1, 537), &[1, 1]),
        Err(Error::Unexpected("zrle rectangle"))
    ));
    assert_eq!(decode_tiles(&eight_bit(), Rect::new(3, 4, 0, 9), &[]).unwrap().len(), 0);
    assert_eq!(decode_tiles(&eight_bit(), Rect::new(3, 4, 9, 0), &[]).unwrap().len(), 0);
    let edge = decode_tiles(&eight_bit(), Rect::new(65535, 65535, 1, 1), &[1, 6]).unwrap();
    assert_eq!(edge[0].rect, Rect::new(65535, 65535, 1, 1));
}

#[test]
fn tiles_cover_the_rectangle_without_overlap() {
    let rect = Rect::new(5, 7, 130, 70);
    let mut data = Vec::new();
    for i in 0..6u8 {
        data.extend_from_slice(&[1, i]);
    }
    let tiles = decode_tiles(&eight_bit(), rect, &data).unwrap();
    let rects: Vec<Rect> = tiles.iter().map(|t| t.rect).collect();
    assert_eq!(
        rects,
        vec![
            Rect::new(5, 7, 64, 64),
            Rect::new(69, 7, 64, 64),
            Rect::new(133, 7, 2, 64),
            Rect::new(5, 71, 64, 6),
            Rect::new(69, 71, 64, 6),
            Rect::new(133, 71, 2, 6),
        ]
    );
    let mut covered = vec![0u8; 130 * 70];
    for (i, tile) in tiles.iter().enumerate() {
        assert_eq!(tile.pixels.len(), tile.rect.width as usize * tile.rect.height as usize);
        assert!(tile.pixels.iter().all(|p| *p == i as u8));
        for y in tile.rect.top..tile.rect.top + tile.rect.height {
            for x in tile.rect.left..tile.rect.left + tile.rect.width {
                assert!(x >= 5 && x < 135 && y >= 7 && y < 77);
                covered[(y as usize - 7) * 130 + (x as usize - 5)] += 1;
            }
        }
    }
    assert!(covered.iter().all(|count| *count == 1));
}

#[test]
fn a_tile_of_plain_pixels_comes_out_as_raw_pixels_would() {
    let mut format = eight_bit();
    format.bits_per_pixel = 16;
    format.depth = 16;
    let raw: Vec<u8> = (1..=12u8).collect();
    let mut data = vec![0];
    data.extend_from_slice(&raw);
    assert_eq!(one_tile(&format, 3, 2, &data).unwrap(), raw);
    let mut deep = PixelFormat::new_rgb8888();
    deep.depth = 32;
    let raw: Vec<u8> = (1..=8u8).collect();
    let mut data = vec![0];
    data.extend_from_slice(&raw);
    assert_eq!(one_tile(&deep, 2, 1, &data).unwrap(), raw);
}

#[test]
fn compact_pixels_leave_out_the_byte_without_colour() {
    let high = PixelFormat {
        bits_per_pixel: 32,
        depth: 24,
        big_endian: true,
        true_colour: true,
        red_max: 255,
        green_max: 255,
        blue_max: 255,
        red_shift: 24,
        green_shift: 16,
        blue_shift: 8,
    };
    let layout = Layout::of(&high);
    assert!(layout.compact && !layout.pad_first);
    assert_eq!(one_tile(&high, 1, 1, &[0, 1, 2, 3]).unwrap(), vec![1, 2, 3, 0]);
    let mut little = high;
    little.big_endian = false;
    assert!(Layout::of(&little).pad_first);
    assert_eq!(one_tile(&little, 1, 1, &[0, 1, 2, 3]).unwrap(), vec![0, 1, 2, 3]);
    let mut wide = high;
    wide.blue_shift = 0;
    let layout = Layout::of(&wide);
    assert!(!layout.compact);
    assert_eq!(layout.cpixel, 4);
    let mut deep = PixelFormat::new_rgb8888();
    deep.depth = 25;
    assert_eq!(Layout::of(&deep).cpixel, 4);
    let mut shifted = PixelFormat::new_rgb8888();
    shifted.red_shift = 40;
    assert_eq!(Layout::of(&shifted).cpixel, 4);
    shifted.red_max = 0;
    assert_eq!(Layout::of(&shifted).cpixel, 3);
    assert_eq!(Layout::of(&eight_bit()).cpixel, 1);
    assert_eq!(Layout::of(&eight_bit()).pixel, 1);
}

#[test]
fn decoder_refuses_input_that_decompresses_to_too_much() {
    let mut compressor = Compress::new(Compression::default(), true);
    let input = deflate(&mut compressor, &[0x01, 0x11, 0x22, 0x33, 0x44]);
    let mut decoder = Decoder::new();
    let r = decoder.decode_all(rgb_little_endian(), Rect::new(0, 0, 1, 1), &input);
    assert!(matches!(r, Err(Error::Unexpected("leftover ZRLE byte data"))));
}

#[test]
fn decoder_takes_a_large_rectangle() {
    let mut compressor = Compress::new(Compression::default(), true);
    let mut plain = Vec::new();
    for tile in 0..4u8 {
        plain.push(0);
        for i in 0..(64usize * 64) {
            plain.extend_from_slice(&[tile, (i % 251) as u8, (i / 251) as u8]);
        }
    }
    let input = deflate(&mut compressor, &plain);
    let mut decoder = Decoder::new();
    let tiles = decoder.decode_all(rgb_little_endian(), Rect::new(0, 0, 128, 128), &input).unwrap();
    assert_eq!(tiles.len(), 4);
    assert_eq!(tiles[3].rect, Rect::new(64, 64, 64, 64));
    assert_eq!(tiles[3].pixels.len(), 64 * 64 * 4);
    assert_eq!(&tiles[3].pixels[4..8], &[3, 1, 0, 0]);
    assert_eq!(&tiles[1].pixels[252 * 4..252 * 4 + 4], &[1, 1, 1, 0]);
}

#[test]
fn inflate_hands_over_what_the_stream_holds() {
    let mut compressor = Compress::new(Compression::default(), true);
    let input = deflate(&mut compressor, b"hello hello hello");
    let mut decoder = Decoder::new();
    assert_eq!(decoder.inflate(&input, 100).unwrap(), b"hello hello hello");
    let more = deflate(&mut compressor, b"hello again");
    assert_eq!(decoder.inflate(&more, 100).unwrap(), b"hello again");
    let last = deflate(&mut compressor, b"0123456789");
    let cut = decoder.inflate(&last, 4).unwrap();
    assert_eq!(cut, b"0123");
}

#[test]
fn decoder_hands_each_tile_to_the_sink_until_it_says_stop() {
    let mut compressor = Compress::new(Compression::default(), true);
    let plain = [1u8, 10, 1, 20, 1, 30];
    let first = deflate(&mut compressor, &plain);
    let second = deflate(&mut compressor, &plain);
    let third = deflate(&mut compressor, &plain);
    let mut decoder = Decoder::new();
    let rect = Rect::new(0, 0, 129, 1);
    let seen = RefCell::new(Vec::new());
    let finished = decoder
        .decode(eight_bit(), rect, &first, |area, pixels| {
            seen.borrow_mut().push((area, pixels[0]));
            Ok(true)
        })
        .unwrap();
    assert!(finished);
    assert_eq!(
        *seen.borrow(),
        vec![(Rect::new(0, 0, 64, 1), 10), (Rect::new(64, 0, 64, 1), 20), (Rect::new(128, 0, 1, 1), 30)]
    );
    let lefts = RefCell::new(Vec::new());
    let finished = decoder
        .decode(eight_bit(), rect, &second, |area, _| {
            lefts.borrow_mut().push(area.left);
            Ok(area.left < 64)
        })
        .unwrap();
    assert!(!finished);
    assert_eq!(*lefts.borrow(), vec![0, 64]);
    let failed = decoder.decode(eight_bit(), rect, &third, |_, _| Err(Error::Disconnected));
    assert!(matches!(failed, Err(Error::Disconnected)));
}

#[test]
fn decoder_ends_with_the_error_of_the_sink_at_the_tile_where_it_failed() {
    let mut compressor = Compress::new(Compression::default(), true);
    let input = deflate(&mut compressor, &[1u8, 10, 1, 20, 1, 30]);
    let mut decoder = Decoder::new();
    let lefts = RefCell::new(Vec::new());
    let r = decoder.decode(eight_bit(), Rect::new(0, 0, 129, 1), &input, |area, _| {
        lefts.borrow_mut().push(area.left);
        if area.left == 64 {
            Err(Error::Unexpected("sink"))
        } else {
            Ok(true)
        }
    });
    assert!(matches!(r, Err(Error::Unexpected("sink"))));
    assert_eq!(*lefts.borrow(), vec![0, 64]);
}

#[test]
fn decoder_hands_over_the_tiles_before_one_that_does_not_decode() {
    let mut compressor = Compress::new(Compression::default(), true);
    let mut plain = vec![1u8, 10, 17];
    plain.extend_from_slice(&[0u8; 17]);
    let input = deflate(&mut compressor, &plain);
    let mut decoder = Decoder::new();
    let seen = RefCell::new(Vec::new());
    let r = decoder.decode(eight_bit(), Rect::new(0, 0, 65, 1), &input, |area, pixels| {
        seen.borrow_mut().push((area, pixels));
        Ok(true)
    });
    assert!(matches!(r, Err(Error::Unexpected("zrle subencoding"))));
    assert_eq!(*seen.borrow(), vec![(Rect::new(0, 0, 64, 1), vec![10u8; 64])]);
}

#[test]
fn decoder_finishes_a_rectangle_without_tiles() {
    let mut compressor = Compress::new(Compression::default(), true);
    let input = deflate(&mut compressor, &[]);
    let mut decoder = Decoder::new();
    let calls = RefCell::new(0u32);
    let r = decoder.decode(eight_bit(), Rect::new(3, 4, 0, 7), &input, |_, _| {
        *calls.borrow_mut() += 1;
        Ok(true)
    });
    assert!(matches!(r, Ok(true)));
    assert_eq!(*calls.borrow(), 0);
    let next = deflate(&mut compressor, &[1u8, 9]);
    let tiles = decoder.decode_all(eight_bit(), Rect::new(0, 0, 1, 1), &next).unwrap();
    assert_eq!(tiles.len(), 1);
    assert_eq!(tiles[0].pixels, vec![9]);
}

#[test]
fn decoder_refuses_a_corrupt_stream_before_the_sink_sees_a_tile() {
    let mut decoder = Decoder::new();
    let calls = RefCell::new(0u32);
    let r = decoder.decode(eight_bit(), Rect::new(0, 0, 1, 1), &[1, 2, 3, 4, 5], |_, _| {
        *calls.borrow_mut() += 1;
        Ok(true)
    });
    assert!(matches!(r, Err(Error::Io(IoError::InvalidData))));
    assert_eq!(*calls.borrow(), 0);
}

#[test]
fn tiles_are_handed_over_one_by_one_as_they_are_decoded() {
    let data = [1u8, 10, 1, 20, 1, 30];
    let rect = Rect::new(7, 9, 129, 1);
    let seen = RefCell::new(Vec::new());
    let r = hand_over(&eight_bit(), rect, &data, |area, pixels| {
        seen.borrow_mut().push((area, pixels.len(), pixels[0]));
        Ok(true)
    });
    assert!(matches!(r, Ok(true)));
    assert_eq!(
        *seen.borrow(),
        vec![
            (Rect::new(7, 9, 64, 1), 64, 10),
            (Rect::new(71, 9, 64, 1), 64, 20),
            (Rect::new(135, 9, 1, 1), 1, 30)
        ]
    );
}

#[test]
fn handing_over_stops_where_the_sink_says_so_and_decodes_no_further() {
    let data = [1u8, 10, 99];
    let calls = RefCell::new(0u32);
    let r = hand_over(&eight_bit(), Rect::new(0, 0, 65, 1), &data, |_, _| {
        *calls.borrow_mut() += 1;
        Ok(false)
    });
    assert!(matches!(r, Ok(false)));
    assert_eq!(*calls.borrow(), 1);
}

#[test]
fn handing_over_ends_with_leftover_bytes_after_the_last_tile() {
    let data = [1u8, 10, 1, 20, 0];
    let calls = RefCell::new(0u32);
    let r = hand_over(&eight_bit(), Rect::new(0, 0, 65, 1), &data, |_, _| {
        *calls.borrow_mut() += 1;
        Ok(true)
    });
    assert!(matches!(r, Err(Error::Unexpected("leftover ZRLE byte data"))));
    assert_eq!(*calls.borrow(), 2);
}

#[test]
fn handing_over_ends_where_a_tile_breaks_off() {
    let data = [1u8, 10, 1];
    let calls = RefCell::new(0u32);
    let r = hand_over(&eight_bit(), Rect::new(0, 0, 65, 1), &data, |_, _| {
        *calls.borrow_mut() += 1;
        Ok(true)
    });
    assert!(matches!(r, Err(Error::Io(IoError::UnexpectedEof))));
    assert_eq!(*calls.borrow(), 1);
}

#[test]
fn handing_over_refuses_a_rectangle_beyond_the_coordinates() {
    let calls = RefCell::new(0u32);
    let r = hand_over(&eight_bit(), Rect::new(65535, 0, 2, 1), &[1u8, 10], |_, _| {
        *calls.borrow_mut() += 1;
        Ok(true)
    });
    assert!(matches!(r, Err(Error::Unexpected("zrle rectangle"))));
    assert_eq!(*calls.borrow(), 0);
}

#[test]
fn handing_over_a_rectangle_without_tiles_is_done_at_once() {
    let r = hand_over(&eight_bit(), Rect::new(1, 2, 0, 5), &[], |_, _| Ok(false));
    assert!(matches!(r, Ok(true)));
    let r = hand_over(&eight_bit(), Rect::new(1, 2, 0, 5), &[0], |_, _| Ok(false));
    assert!(matches!(r, Err(Error::Unexpected("leftover ZRLE byte data"))));
}

#[test]
fn inflate_with_no_room_leaves_the_decompressor_alone() {
    let mut compressor = Compress::new(Compression::default(), true);
    let input = deflate(&mut compressor, b"abc");
    let mut decoder = Decoder::new();
    assert_eq!(decoder.inflate(&[], 0).unwrap(), Vec::<u8>::new());
    assert!(matches!(
        decoder.inflate(&input, 0),
        Err(Error::Unexpected("leftover ZRLE byte data"))
    ));
    assert_eq!(decoder.inflate(&input, 3).unwrap(), b"abc");
}

#[test]
fn inflate_reports_input_that_the_limit_leaves_untouched() {
    let mut compressor = Compress::new(Compression::none(), true);
    let plain: Vec<u8> = (0..400_000u32).map(|i| (i % 251) as u8).collect();
    let input = deflate(&mut compressor, &plain);
    let mut decoder = Decoder::new();
    assert!(matches!(
        decoder.inflate(&input, 10),
        Err(Error::Unexpected("leftover ZRLE byte data"))
    ));
}

#[test]
fn inflate_refuses_a_stream_that_ends() {
    let mut compressor = Compress::new(Compression::default(), true);
    let mut input = Vec::with_capacity(256);
    compressor.compress_vec(b"the end", &mut input, FlushCompress::Finish).unwrap();
    let mut decoder = Decoder::new();
    assert!(matches!(decoder.inflate(&input, 100), Err(Error::Io(IoError::InvalidData))));
}

#[test]
fn the_first_step_of_inflating() {
    assert!(matches!(plan_first_step(0, 0, 0, 0), InflateStep::Done));
    assert!(matches!(
        plan_first_step(0, 0, 5, 0),
        InflateStep::Fail(Error::Unexpected("leftover ZRLE byte data"))
    ));
    assert!(matches!(plan_first_step(0, 0, 0, 1), InflateStep::GoOn));
    assert!(matches!(plan_first_step(17, 23, 5, 7), InflateStep::GoOn));
    assert!(matches!(plan_first_step(u64::MAX - 5, 0, 5, 1), InflateStep::GoOn));
    assert!(matches!(
        plan_first_step(u64::MAX - 4, 0, 5, 1),
        InflateStep::Fail(Error::Io(IoError::InvalidData))
    ));
    assert!(matches!(plan_first_step(0, u64::MAX - 7, 5, 7), InflateStep::GoOn));
    assert!(matches!(
        plan_first_step(0, u64::MAX - 6, 5, 7),
        InflateStep::Fail(Error::Io(IoError::InvalidData))
    ));
    assert!(matches!(plan_first_step(u64::MAX, u64::MAX, 0, 0), InflateStep::Done));
}

#[test]
fn the_next_step_of_inflating() {
    let invalid = |step: InflateStep| matches!(step, InflateStep::Fail(Error::Io(IoError::InvalidData)));
    let leftover = |step: InflateStep| {
        matches!(step, InflateStep::Fail(Error::Unexpected("leftover ZRLE byte data")))
    };
    assert!(invalid(plan_next_step(None, 3, 4, 0, 9)));
    assert!(invalid(plan_next_step(Some(InflateStatus::StreamEnd), 3, 4, 0, 9)));
    assert!(invalid(plan_next_step(Some(InflateStatus::StreamEnd), 0, 0, 0, 0)));
    assert!(matches!(plan_next_step(Some(InflateStatus::Progress), 3, 4, 2, 9), InflateStep::GoOn));
    assert!(matches!(plan_next_step(Some(InflateStatus::Progress), 3, 0, 0, 9), InflateStep::GoOn));
    assert!(matches!(plan_next_step(Some(InflateStatus::Stalled), 0, 4, 0, 9), InflateStep::GoOn));
    assert!(matches!(plan_next_step(Some(InflateStatus::Stalled), 0, 0, 0, 9), InflateStep::Done));
    assert!(matches!(plan_next_step(Some(InflateStatus::Progress), 0, 0, 0, 9), InflateStep::Done));
    assert!(leftover(plan_next_step(Some(InflateStatus::Stalled), 0, 0, 1, 9)));
    assert!(matches!(plan_next_step(Some(InflateStatus::Progress), 3, 4, 0, 0), InflateStep::Done));
    assert!(leftover(plan_next_step(Some(InflateStatus::Progress), 3, 4, 2, 0)));
}

/// Writes each tile to its place in a buffer of the rectangle.
fn assemble(rect: Rect, size: usize, tiles: &[vnc::zrle::Tile]) -> Vec<u8> {
    let mut buffer = vec![0xEEu8; rect.width as usize * rect.height as usize * size];
    for tile in tiles {
        let width = tile.rect.width as usize * size;
        for row in 0..tile.rect.height as usize {
            let y = (tile.rect.top - rect.top) as usize + row;
            let x = (tile.rect.left - rect.left) as usize;
            let to = (y * rect.width as usize + x) * size;
            buffer[to..to + width].copy_from_slice(&tile.pixels[row * width..(row + 1) * width]);
        }
    }
    buffer
}

#[test]
fn tiles_written_in_different_ways_assemble_to_the_raw_pixels() {
    let rect = Rect::new(10, 20, 70, 2);
    let raw: Vec<u8> = (0..140usize).map(|i| if i % 70 < 64 { (i % 70) as u8 } else { 9 }).collect();
    let first: Vec<u8> = (0..128usize).map(|i| (i % 64) as u8).collect();
    for second in [vec![1u8, 9], vec![128, 9, 11], vec![128, 9, 5, 9, 5], vec![0, 9, 9, 9, 9, 9, 9, 9, 9, 9, 9, 9, 9]] {
        let mut data = vec![0u8];
        data.extend_from_slice(&first);
        data.extend_from_slice(&second);
        let tiles = decode_tiles(&eight_bit(), rect, &data).unwrap();
        assert_eq!(tiles.len(), 2);
        assert_eq!(assemble(rect, 1, &tiles), raw);
    }
    let mut palette = vec![2u8, 9, 7];
    palette.extend_from_slice(&[0, 0]);
    let runs = vec![130u8, 9, 7, 128, 5, 0, 128, 4];
    for second in [palette, vec![129, 9, 128, 11], runs] {
        let mut data = vec![0u8];
        data.extend_from_slice(&first);
        data.extend_from_slice(&second);
        let tiles = decode_tiles(&eight_bit(), rect, &data).unwrap();
        assert_eq!(assemble(rect, 1, &tiles), raw);
    }
}
