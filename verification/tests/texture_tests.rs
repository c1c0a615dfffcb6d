use rustix_runtime::batching::{plan_mesh_batches, BatchInfo, GenDrawPushConstants, MeshGroup};
use rustix_runtime::texture::{
    build_mip_chain, can_halve, decode_texture_rgba8, effective_compression, halve_rgba8, is_hdr_extension,
    CompressedBlockFormat, TextureAsset, TextureFormat, TextureImportOptions,
};

fn rgba(width: u32, height: u32, pixels: Vec<u8>) -> TextureAsset {
    TextureAsset { width, height, format: TextureFormat::R8g8b8a8Unorm, pixels }
}

#[test]
fn halving_averages_each_two_by_two_block() {
    // 2x2 image, one pixel per quadrant
    let src = rgba(2, 2, vec![0, 0, 0, 255, 100, 0, 0, 255, 0, 200, 0, 255, 0, 0, 50, 255]);
    let dst = halve_rgba8(&src).unwrap();
    assert_eq!((dst.width, dst.height), (1, 1));
    assert_eq!(dst.pixels, vec![25, 50, 12, 255]);
    assert_eq!(dst.format, TextureFormat::R8g8b8a8Unorm);
}

#[test]
fn halving_an_odd_image_clamps_at_the_edge() {
    // 3x1 image: the half-size image is 1x1 from the first two pixels
    let src = rgba(3, 1, vec![10, 10, 10, 10, 30, 30, 30, 30, 250, 250, 250, 250]);
    let dst = halve_rgba8(&src).unwrap();
    assert_eq!((dst.width, dst.height), (1, 1));
    assert_eq!(dst.pixels, vec![20, 20, 20, 20]);
    // 1x1 stays 1x1 and keeps its pixel
    let one = rgba(1, 1, vec![7, 8, 9, 10]);
    let same = halve_rgba8(&one).unwrap();
    assert_eq!((same.width, same.height), (1, 1));
    assert_eq!(same.pixels, vec![7, 8, 9, 10]);
}

#[test]
fn mip_chain_runs_down_to_one_pixel() {
    let pixels: Vec<u8> = (0..8 * 4 * 4).map(|i| (i % 251) as u8).collect();
    let chain = build_mip_chain(rgba(8, 4, pixels.clone()));
    let sizes: Vec<(u32, u32)> = chain.iter().map(|t| (t.width, t.height)).collect();
    assert_eq!(sizes, vec![(8, 4), (4, 2), (2, 1), (1, 1)]);
    assert_eq!(chain[0].pixels, pixels);
    for t in chain.iter() {
        assert_eq!(t.pixels.len() as u32, t.width * t.height * 4);
    }
    let single = build_mip_chain(rgba(1, 1, vec![1, 2, 3, 4]));
    assert_eq!(single.len(), 1);
}

#[test]
fn compression_choice() {
    let defaults = TextureImportOptions::default();
    assert_eq!(defaults.compress, Some(CompressedBlockFormat::Bc7Unorm));
    assert!(defaults.generate_mips && defaults.srgb && !defaults.normal_map);
    assert_eq!(effective_compression(&defaults, false), Some(CompressedBlockFormat::Bc7UnormSrgb));
    assert_eq!(effective_compression(&defaults, true), None);
    let astc = TextureImportOptions { compress: Some(CompressedBlockFormat::Astc6x6Unorm), ..defaults };
    assert_eq!(effective_compression(&astc, false), Some(CompressedBlockFormat::Astc6x6UnormSrgb));
    let linear = TextureImportOptions { srgb: false, ..astc };
    assert_eq!(effective_compression(&linear, false), Some(CompressedBlockFormat::Astc6x6Unorm));
    let normal = TextureImportOptions { normal_map: true, srgb: false, ..astc };
    assert_eq!(effective_compression(&normal, false), Some(CompressedBlockFormat::Bc7Unorm));
    let none = TextureImportOptions { compress: None, ..defaults };
    assert_eq!(effective_compression(&none, false), None);
    let already = TextureImportOptions { compress: Some(CompressedBlockFormat::Astc8x8UnormSrgb), ..defaults };
    assert_eq!(effective_compression(&already, false), Some(CompressedBlockFormat::Astc8x8UnormSrgb));
}

#[test]
fn hdr_extensions_ignore_case() {
    assert!(is_hdr_extension("hdr"));
    assert!(is_hdr_extension("EXR"));
    assert!(is_hdr_extension("Hdr"));
    assert!(!is_hdr_extension("png"));
    assert!(!is_hdr_extension("hdri"));
    assert!(!is_hdr_extension(""));
}

#[test]
fn decoding_a_png_gives_its_rgba_pixels() {
    let img = image::RgbaImage::from_raw(2, 1, vec![1, 2, 3, 255, 40, 50, 60, 128]).unwrap();
    let mut bytes: Vec<u8> = Vec::new();
    img.write_to(&mut std::io::Cursor::new(&mut bytes), image::ImageFormat::Png).unwrap();
    let t = decode_texture_rgba8(&bytes).unwrap();
    assert_eq!((t.width, t.height), (2, 1));
    assert_eq!(t.format, TextureFormat::R8g8b8a8Unorm);
    assert_eq!(t.pixels, vec![1, 2, 3, 255, 40, 50, 60, 128]);
}

#[test]
fn decoding_garbage_fails() {
    assert!(decode_texture_rgba8(&[1, 2, 3, 4, 5]).is_err());
    assert!(decode_texture_rgba8(&[]).is_err());
}

fn group(name: &str, count: usize, index_count: u32) -> MeshGroup {
    MeshGroup { mesh_name: name.to_string(), entity_count: count, index_count }
}

#[test]
fn batches_pack_instances_in_group_order() {
    let (batches, used) = plan_mesh_batches(vec![group("cube", 3, 36), group("sphere", 2, 960)], 100, 10);
    assert_eq!(used, 5);
    assert_eq!(batches.len(), 2);
    assert_eq!(batches[0].mesh_name, "cube");
    assert_eq!((batches[0].instance_offset, batches[0].instance_count, batches[0].index_count), (0, 3, 36));
    assert_eq!(batches[1].mesh_name, "sphere");
    assert_eq!((batches[1].instance_offset, batches[1].instance_count, batches[1].index_count), (3, 2, 960));
}

#[test]
fn batches_stop_at_the_instance_and_batch_limits() {
    let (batches, used) =
        plan_mesh_batches(vec![group("a", 4, 6), group("b", 4, 6), group("c", 4, 6)], 6, 10);
    assert_eq!(used, 6);
    assert_eq!(batches.len(), 2);
    assert_eq!(batches[1].instance_count, 2);
    let (batches, used) =
        plan_mesh_batches(vec![group("a", 1, 6), group("b", 1, 6), group("c", 1, 6)], 100, 2);
    assert_eq!(used, 2);
    assert_eq!(batches.len(), 2);
    let (batches, used) = plan_mesh_batches(vec![group("empty", 0, 6), group("b", 2, 6)], 100, 10);
    assert_eq!(used, 2);
    assert_eq!(batches.len(), 1);
    assert_eq!(batches[0].mesh_name, "b");
}

#[test]
fn gpu_batch_records() {
    let info = BatchInfo { mesh_index: 1, instance_offset: 3, instance_count: 2, index_count: 36 };
    let copy = info;
    assert_eq!(copy.instance_offset + copy.instance_count, 5);
    let pc = GenDrawPushConstants { batch_count: 4, _pad: [0; 3] };
    assert_eq!(pc.batch_count, 4);
}

#[test]
fn halving_preconditions() {
    assert!(can_halve(&rgba(2, 2, vec![0; 16])));
    assert!(!can_halve(&rgba(2, 2, vec![0; 15])));
    assert!(!can_halve(&rgba(0, 2, vec![])));
    assert!(can_halve(&rgba(1, 1, vec![0; 4])));
}
