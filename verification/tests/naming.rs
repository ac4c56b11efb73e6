use bugglers::naming::output_path;

#[test]
fn image_is_named_after_the_stem_and_the_size() {
    assert_eq!(output_path("samples/miaou.wav", 480, 480), "output/miaou_480x480.png");
    assert_eq!(output_path("miaou.wav", 120, 120), "output/miaou_120x120.png");
    assert_eq!(output_path("/home/me/music/song.flac", 1, 2), "output/song_1x2.png");
}

#[test]
fn stem_ends_at_the_first_dot() {
    assert_eq!(output_path("a/b.c.d", 3, 3), "output/b_3x3.png");
    assert_eq!(output_path("dir.v2/track", 3, 3), "output/track_3x3.png");
    assert_eq!(output_path("dir/.hidden", 3, 3), "output/_3x3.png");
    assert_eq!(output_path("dir/name.", 3, 3), "output/name_3x3.png");
}

#[test]
fn path_without_a_file_name_has_an_empty_stem() {
    assert_eq!(output_path("", 0, 0), "output/_0x0.png");
    assert_eq!(output_path("samples/", 7, 7), "output/_7x7.png");
    assert_eq!(output_path("/", 7, 7), "output/_7x7.png");
    assert_eq!(output_path("//", 7, 7), "output/_7x7.png");
}

#[test]
fn stem_keeps_characters_of_several_bytes() {
    assert_eq!(output_path("musique/été.wav", 10, 10), "output/été_10x10.png");
    assert_eq!(output_path("音/楽.wav", 10, 10), "output/楽_10x10.png");
}

#[test]
fn name_agrees_with_splitting_the_path() {
    let paths = ["a", "a.b", "a/b", "a/b.c/d.e.f", "./x", "../y.z", "a//b..c", ".", "..", "a/."];
    for path in paths {
        let stem = path.split("/").last().unwrap().split(".").next().unwrap();
        assert_eq!(output_path(path, 12, 34), format!("output/{}_12x34.png", stem));
    }
}
