use voxelmap_cache::colorizer::{
    block_name_stem, colorize_biome, colorize_height, colorize_height_bw, colorize_light,
    colorize_naturality, colorize_simple, get_land_color, get_sea_color, interpolate,
    interpolate_color_component, is_water, render_tile, rgb, Colorizer, NaturalityPalette,
    NaturalityRule,
};
use voxelmap_cache::columns::{
    analyze_tile, diff, diff_pixel, heightmap, heightmap_color, is_empty, lightmap, pack_argb,
    palette_pixels, rgba, sandmap, xz_from_zip_path, DiffError,
};
use voxelmap_cache::decimal::IntParseError;
use voxelmap_cache::keyless::build_global_keys_map;
use voxelmap_cache::keys::KeyTable;
use voxelmap_cache::processor::{
    decimal_int_string, decimal_string, replace_all, SingleImageProcessor, TilesProcessor,
};
use voxelmap_cache::stats::{
    add_counts, bare_name, biome_total, count_section_blocks, count_tile, is_player_id,
    merge_biome_block_counts_into, new_biome_block_counts, parse_id_filter, region_in_border,
    split_idmeta, xz_from_region_path, CountError, RegionPathError,
};
use voxelmap_cache::tile::{Tile, TILE_BYTES, TILE_COLUMNS};
use voxelmap_cache::tile_path::TilePathError;

fn tile_of(entries: &[(&str, u16)]) -> Tile {
    let mut keys = KeyTable::new();
    for (name, id) in entries {
        keys.insert(name, *id).unwrap();
    }
    let names = keys.names_vec();
    Tile::from_parts(vec![0; TILE_BYTES], keys, names, None, None).unwrap()
}

#[test]
fn colors_are_packed() {
    assert_eq!(rgb(0x11, 0x22, 0x33), 0xff332211);
    assert_eq!(rgba(0x11, 0x22, 0x33, 0x44), 0x44332211);
    assert_eq!(pack_argb(0x11, 0x22, 0x33, 0x44), 0x44112233);
    assert_eq!(interpolate_color_component(0, 255, 0, 64, 16), 63);
    assert_eq!(interpolate_color_component(200, 100, 10, 20, 10), 200);
    assert_eq!(interpolate_color_component(200, 100, 10, 20, 20), 100);
    assert_eq!(interpolate_color_component(255, 255, 0, 255, 77), 255);
    assert_eq!(interpolate(0xff000000, 0xffffd900, 0, 64, 32), 0xff7f6c00);
}

#[test]
fn heights_have_colors() {
    assert_eq!(get_sea_color(0), 0xff000000);
    assert_eq!(get_sea_color(32), 0xff7f6c00);
    assert_eq!(get_sea_color(64), 0xffffd900);
    assert_eq!(get_sea_color(200), 0xffffd900);
    assert_eq!(get_land_color(1), 0xff000200);
    assert_eq!(get_land_color(64), 0xff00b600);
    assert_eq!(get_land_color(100), 0xff00ffff);
    assert_eq!(get_land_color(150), 0xff326e9f);
    assert_eq!(get_land_color(240), 0xffffffff);
    assert_eq!(get_land_color(255), 0xff880088);
    assert_eq!(get_land_color(0), 0xff880088);
    assert_eq!(get_land_color(82), 0xff00da7f);
    let palette = palette_pixels();
    assert_eq!(palette.len(), 25600);
    assert_eq!(palette[0], get_land_color(0));
    assert_eq!(palette[99], get_sea_color(0));
    assert_eq!(palette[100 * 255 + 49], get_land_color(1));
    assert_eq!(palette[100 * 255 + 50], get_sea_color(1));
    assert_eq!(palette[100 * (256 - 64) + 10], 0xff00b600);
}

#[test]
fn columns_are_colored() {
    let mut tile = tile_of(&[("minecraft:stone", 1), ("minecraft:water[level=0]", 2)]);
    tile.set_height(5, 70);
    tile.set_blockstate(5, 1);
    tile.set_light(5, 0xfa);
    tile.set_biome_id(5, 3);
    tile.set_blockstate(6, 2);
    tile.set_ocean_floor_height(6, 32);
    tile.set_biome_id(7, 1);
    assert!(!is_water(&tile, 5));
    assert!(is_water(&tile, 6));
    assert_eq!(colorize_simple(&tile, 4), 0);
    assert_eq!(colorize_simple(&tile, 5), 0xffdce4e7);
    assert_eq!(colorize_simple(&tile, 6), 0xffffc5a6);
    assert_eq!(colorize_light(&tile, 4), 0);
    assert_eq!(colorize_light(&tile, 5), 0xffaaaaaa);
    assert_eq!(colorize_height_bw(&tile, 4), 0);
    assert_eq!(colorize_height_bw(&tile, 5), 0xff464646);
    assert_eq!(colorize_height_bw(&tile, 6), 0xffffffff);
    assert_eq!(colorize_height(&tile, 4), 0);
    assert_eq!(colorize_height(&tile, 5), get_land_color(70));
    assert_eq!(colorize_height(&tile, 6), get_sea_color(32));
    let biome_colors = vec![10, 11, 12, 13];
    assert_eq!(colorize_biome(&tile, 4, &biome_colors), 0);
    assert_eq!(colorize_biome(&tile, 5, &biome_colors), 13);
    assert_eq!(colorize_biome(&tile, 7, &biome_colors), 11);
    // Without water in the key table the largest id counts as water.
    let mut dry = tile_of(&[("minecraft:stone", 1)]);
    dry.set_blockstate(0, 65535);
    assert!(is_water(&dry, 0));
    assert!(!is_water(&dry, 1));
}

fn palette() -> NaturalityPalette {
    let rule = |block: &str, biome: Option<u8>, naturality: u8| NaturalityRule {
        block: block.to_string(),
        biome,
        naturality,
    };
    NaturalityPalette {
        rules: vec![
            rule("stone", None, 3),
            rule("sand", Some(2), 1),
            rule("sand", None, 2),
            rule("sand", Some(2), 4),
            rule("planks", None, 0),
        ],
        colors: vec![100, 101, 102, 103, 104],
        unknown: 4,
    }
}

#[test]
fn naturality_is_that_of_the_most_natural_block() {
    assert_eq!(block_name_stem(b"minecraft:oak_log[axis=y]"), b"oak_log");
    assert_eq!(block_name_stem(b"a:b:c"), b"c");
    assert_eq!(block_name_stem(b"plain"), b"plain");
    assert_eq!(block_name_stem(b"x[a:b]"), b"x");
    assert_eq!(block_name_stem(b"mod:"), b"");
    let mut tile = tile_of(&[
        ("minecraft:stone", 1),
        ("minecraft:sand[x=1]", 2),
        ("minecraft:planks", 3),
        ("minecraft:air", 4),
        ("other:thing", 6),
    ]);
    let palette = palette();
    // planks under stone: the stone counts.
    tile.set_height(0, 9);
    tile.set_blockstate(0, 3);
    tile.set_foliage_blockstate(0, 1);
    assert_eq!(colorize_naturality(&tile, 0, &palette), 103);
    // sand in the biome 2 falls under the first rule for that biome.
    tile.set_height(1, 9);
    tile.set_blockstate(1, 2);
    tile.set_biome_id(1, 2);
    assert_eq!(colorize_naturality(&tile, 1, &palette), 101);
    // sand in another biome falls under the rule for all biomes.
    tile.set_height(2, 9);
    tile.set_blockstate(2, 2);
    assert_eq!(colorize_naturality(&tile, 2, &palette), 102);
    // air and ids without a name do not count; nothing is left.
    tile.set_height(3, 9);
    tile.set_blockstate(3, 4);
    tile.set_ocean_floor_blockstate(3, 5);
    assert_eq!(colorize_naturality(&tile, 3, &palette), 0);
    // a block that no rule names has the rank of the unknown.
    tile.set_height(4, 9);
    tile.set_blockstate(4, 6);
    tile.set_transparent_blockstate(4, 1);
    assert_eq!(colorize_naturality(&tile, 4, &palette), 104);
    assert_eq!(colorize_naturality(&tile, 5, &palette), 0);

    let biome_colors = vec![7; 256];
    assert!(Colorizer::Naturality.can_color(&tile, 4, &biome_colors, &palette));
    assert_eq!(Colorizer::Naturality.get_column_color_fn(&tile, 4, &biome_colors, &palette), 104);
    assert_eq!(Colorizer::Biome.get_column_color_fn(&tile, 1, &biome_colors, &palette), 7);
    assert_eq!(Colorizer::Simple.get_column_color_fn(&tile, 1, &biome_colors, &palette), 0xffdce4e7);
    assert_eq!(Colorizer::Light.get_column_color_fn(&tile, 1, &biome_colors, &palette), 0xff000000);
    assert_eq!(Colorizer::HeightBW.get_column_color_fn(&tile, 1, &biome_colors, &palette), 0xff090909);
    assert_eq!(
        Colorizer::Height.get_column_color_fn(&tile, 1, &biome_colors, &palette),
        get_land_color(9)
    );
    let pixels = render_tile(&tile, Colorizer::Naturality, &biome_colors, &palette).unwrap();
    assert_eq!(pixels.len(), TILE_COLUMNS);
    assert_eq!(&pixels[0..6], &[103, 101, 102, 0, 104, 0]);
    // A block beyond the names cannot be ranked.
    tile.set_blockstate(9, 7);
    assert!(!Colorizer::Naturality.can_color(&tile, 9, &biome_colors, &palette));
    assert!(render_tile(&tile, Colorizer::Naturality, &biome_colors, &palette).is_none());
    assert!(render_tile(&tile, Colorizer::Simple, &biome_colors, &palette).is_some());
    assert!(render_tile(&tile, Colorizer::Biome, &vec![1, 2], &palette).is_none());
}

#[test]
fn old_columns_are_drawn() {
    let mut column = [0u8; 17];
    assert!(is_empty(&column));
    assert_eq!(sandmap(&column), 0);
    column[0] = 70;
    column[3] = 0x2f;
    assert!(!is_empty(&column));
    assert_eq!(heightmap(&column), (70, 70, 70, 255));
    assert_eq!(heightmap_color(&column), 0xff464646);
    assert_eq!(lightmap(&column), 0xffffffff);
    assert_eq!(sandmap(&column), 0xff000000);
    assert_eq!(diff(&column, &[9; 17]), 0xff464646);
    column[6] = 12;
    assert_eq!(sandmap(&column), 0xffc87880);
    column[2] = 12;
    assert_eq!(sandmap(&column), 0xff64f0ff);
    assert_eq!(xz_from_zip_path("3,-4.zip"), Ok((3, -4)));
    assert_eq!(
        xz_from_zip_path("3,-4,x.zip"),
        Err(TilePathError::BadZ(IntParseError::InvalidDigit))
    );
    assert_eq!(xz_from_zip_path("34.zip"), Err(TilePathError::MissingZ));
    assert_eq!(xz_from_zip_path("zip"), Err(TilePathError::TooShort));
}

#[test]
fn records_are_held_against_each_other() {
    let tile = |columns: &[(usize, [u8; 3])]| {
        let mut data = vec![0u8; 65536 * 17];
        for (column, bytes) in columns {
            data[column * 17] = bytes[0];
            data[column * 17 + 2] = bytes[1];
            data[column * 17 + 16] = bytes[2];
        }
        data
    };
    let tiles = vec![
        tile(&[(0, [1, 1, 1]), (1, [1, 1, 1]), (2, [1, 1, 1]), (3, [1, 1, 1])]),
        tile(&[(0, [1, 1, 1]), (1, [2, 1, 1]), (4, [5, 5, 5])]),
        tile(&[(0, [1, 1, 1]), (1, [2, 2, 1]), (2, [1, 2, 1]), (3, [1, 1, 2])]),
    ];
    assert_eq!(diff_pixel(&tiles, 0), 0xff888800);
    assert_eq!(diff_pixel(&tiles, 1), 0xff0000ff);
    assert_eq!(diff_pixel(&tiles, 2), 0xff0088ff);
    assert_eq!(diff_pixel(&tiles, 3), 0xff880088);
    assert_eq!(diff_pixel(&tiles, 4), 0xff888800);
    assert_eq!(diff_pixel(&tiles, 65535), 0xff888800);
    let pixels = analyze_tile(&tiles).unwrap();
    assert_eq!(pixels.len(), 65536);
    assert_eq!(&pixels[0..5], &[0xff888800, 0xff0000ff, 0xff0088ff, 0xff880088, 0xff888800]);
    assert_eq!(analyze_tile(&Vec::new()), Err(DiffError::NoTiles));
    assert_eq!(analyze_tile(&vec![tile(&[])]), Err(DiffError::OnlyOneTile));
}

#[test]
fn paths_of_images() {
    assert_eq!(replace_all("a{x}b{x}{x", "{x}", "12"), "a12b12{x");
    assert_eq!(replace_all("aaa", "aa", "b"), "ba");
    assert_eq!(replace_all("gr\u{fc}n {t}", "{t}", "\u{e9}"), "gr\u{fc}n \u{e9}");
    assert_eq!(replace_all("abc", "", "x"), "abc");
    assert_eq!(replace_all("", "a", "x"), "");
    assert_eq!(decimal_string(0), "0");
    assert_eq!(decimal_string(u64::MAX), "18446744073709551615");
    assert_eq!(decimal_int_string(-17), "-17");
    let tiles = TilesProcessor { tiles_pattern: "out/{x}/{z}/{tile}.png".to_string() };
    assert_eq!(tiles.image_path((3, -4)), "out/3/-4/3,-4.png");
    assert_eq!(
        SingleImageProcessor::replace_timestamp(&"img_{t}_{t}.png".to_string(), 1500000000),
        "img_1500000000_1500000000.png"
    );
    assert!(SingleImageProcessor::fits((-21, -21)));
    assert!(SingleImageProcessor::fits((0, 1)));
    assert!(SingleImageProcessor::fits((2, 0)));
    assert!(!SingleImageProcessor::fits((2, 1)));
    assert!(!SingleImageProcessor::fits((-22, -21)));
}

#[test]
fn regions_are_put_into_the_one_image() {
    let mut image = SingleImageProcessor::new(&"all_{t}.png".to_string(), 7);
    assert_eq!(image.img_path(), "all_7.png");
    assert_eq!(image.pixbuf().len(), 11520 * 11520);
    let mut pixels = Box::new([0u32; 65536]);
    for (i, pixel) in pixels.iter_mut().enumerate() {
        *pixel = i as u32 + 1;
    }
    image.process_region((-21, -20), &pixels);
    // The first line of the region goes to the line 256 of the image.
    assert_eq!(image.pixbuf()[256 * 11520], 1);
    assert_eq!(image.pixbuf()[256 * 11520 + 255], 256);
    assert_eq!(image.pixbuf()[256 * 11520 + 256], 0);
    assert_eq!(image.pixbuf()[257 * 11520], 257);
    assert_eq!(image.pixbuf()[511 * 11520 + 255], 65536);
    assert_eq!(image.pixbuf()[512 * 11520], 0);
    assert_eq!(image.pixbuf()[255 * 11520 + 255], 0);
}

#[test]
fn blocks_of_tiles_are_counted() {
    assert_eq!(bare_name("minecraft:oak_log[axis=y]"), "minecraft:oak_log");
    assert_eq!(bare_name("gr\u{fc}n"), "gr\u{fc}n");
    assert_eq!(bare_name("[x]"), "");
    let mut tile = tile_of(&[("stone", 1), ("log[axis=x]", 2), ("log[axis=y]", 3)]);
    tile.set_blockstate(0, 1);
    tile.set_foliage_blockstate(0, 2);
    tile.set_blockstate(1, 3);
    tile.set_biome_id(1, 9);
    tile.set_transparent_blockstate(65535, 3);
    tile.set_ocean_floor_blockstate(65535, 1);
    let counts = count_tile(&tile).unwrap();
    let count = |biome: u16, block: &str| {
        (0..counts.len())
            .map(|i| counts.entry(i))
            .filter(|e| e.biome == biome && e.block == block)
            .map(|e| e.count)
            .sum::<usize>()
    };
    assert_eq!(counts.len(), 3);
    assert_eq!(count(0, "stone"), 2);
    assert_eq!(count(0, "log"), 2);
    assert_eq!(count(9, "log"), 1);
    assert_eq!(biome_total(&counts, 0), 4);
    assert_eq!(biome_total(&counts, 9), 1);
    assert_eq!(biome_total(&counts, 1), 0);
    let mut sum = new_biome_block_counts();
    sum.add(9, "log", 10);
    sum.add(0, "sand", usize::MAX);
    merge_biome_block_counts_into(&mut sum, &counts);
    merge_biome_block_counts_into(&mut sum, &counts);
    assert_eq!(sum.len(), 4);
    assert_eq!(sum.entry(0).count, 12);
    assert_eq!(biome_total(&sum, 0), usize::MAX);
    tile.set_blockstate(7, 4);
    assert!(matches!(count_tile(&tile), Err(CountError::UnnamedBlock)));
}

#[test]
fn blocks_of_regions_are_counted() {
    let mut counts = vec![0u64; 4096];
    counts[16 * 3 + 2] = u64::MAX;
    count_section_blocks(&[1, 1, 3, 255, 1], &[0x21, 0xf2, 0x05], &mut counts);
    assert_eq!(counts[16 + 1], 1);
    assert_eq!(counts[16 + 2], 1);
    assert_eq!(counts[16 + 5], 1);
    assert_eq!(counts[16 * 3 + 2], u64::MAX);
    assert_eq!(counts[4095], 1);
    assert_eq!(counts.iter().filter(|c| **c != 0).count(), 5);
    let mut total = vec![1, 2, u64::MAX, 4];
    add_counts(&mut total, &[10, 20, 30]);
    assert_eq!(total, vec![11, 22, u64::MAX, 4]);
    add_counts(&mut total, &[1, 1, 1, 1, 1]);
    assert_eq!(total, vec![12, 23, u64::MAX, 5]);
    assert_eq!(split_idmeta(16 * 35 + 14), (35, 14));
    assert_eq!(xz_from_region_path("r.3.-4.mca"), Ok((3, -4)));
    assert_eq!(
        xz_from_region_path("r.3.-4.5.mca"),
        Err(RegionPathError::BadZ(IntParseError::InvalidDigit))
    );
    assert_eq!(xz_from_region_path("r.x.1.mca"), Err(RegionPathError::BadX(IntParseError::InvalidDigit)));
    assert_eq!(xz_from_region_path("r.3.mca"), Err(RegionPathError::MissingPart));
    assert_eq!(xz_from_region_path("r3.mca"), Err(RegionPathError::MissingPart));
    assert_eq!(xz_from_region_path("mca"), Err(RegionPathError::MissingPart));
    assert!(region_in_border(-10, 9));
    assert!(!region_in_border(10, 0));
    assert!(!region_in_border(0, -11));
    assert!(is_player_id(0x05) && is_player_id(0x26) && is_player_id(0x27) && is_player_id(0x4c));
    assert!(!is_player_id(0x20) && !is_player_id(0));
    assert_eq!(parse_id_filter("5,38,+39"), Ok(vec![5, 38, 39]));
    assert_eq!(parse_id_filter("76"), Ok(vec![76]));
    assert_eq!(parse_id_filter(""), Err(IntParseError::Empty));
    assert_eq!(parse_id_filter("1,,2"), Err(IntParseError::Empty));
    assert_eq!(parse_id_filter("1,256"), Err(IntParseError::PosOverflow));
    assert_eq!(parse_id_filter("1, 2"), Err(IntParseError::InvalidDigit));
}

#[test]
fn all_legacy_names_make_a_key_table() {
    let names: Vec<String> =
        ["air", "stone", "granite", "stone", "not plain", "dirt"].iter().map(|s| s.to_string()).collect();
    let keys = build_global_keys_map(&names);
    assert_eq!(keys.len(), 3);
    assert_eq!(keys.get("stone"), Some(1));
    assert_eq!(keys.get("granite"), Some(2));
    assert_eq!(keys.get("dirt"), Some(5));
    assert_eq!(keys.get("air"), None);
    assert_eq!(build_global_keys_map(&Vec::new()).len(), 0);
}
