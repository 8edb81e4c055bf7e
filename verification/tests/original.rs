use show_renamer::{_clean_vost, clean_name, get_info};

#[test]
fn cleans_vost() {
    let result = _clean_vost("Hello VOSTFR.mp4");
    assert_eq!(result, "Hello.mp4".to_lowercase());
}

#[test]
// Test if clean_name works well by generating file basename with stuff before and after show name
fn cleans_well() {
    let webs = vec![
        "www.subs.net",
        "www.hey.net",
        "www.f0oB@rs.com",
        "www.eggs_and&_spams.net",
    ];
    let encodings = vec!["x264", "x265", "h264", "h265", "H264", "H265"];
    let encodings2 = vec!["8-bits", "10-bits"];
    let encodings3 = vec!["hevc", "nvenc", "BLURAY", "BDrip"];
    let audioencodings = vec!["ac3", "aac"];
    let subs = vec!["VOST", "VOSTFR", "VF", "ENG", "FRENCH"];
    let qualities = vec!["480p", "720p", "1080p"];
    let webs = webs.iter().map(|x| x.to_string()).collect::<Vec<String>>();
    let encodings = encodings
        .iter()
        .map(|x| x.to_string())
        .collect::<Vec<String>>();
    let encodings2 = encodings2
        .iter()
        .map(|x| x.to_string())
        .collect::<Vec<String>>();
    let encodings3 = encodings3
        .iter()
        .map(|x| x.to_string())
        .collect::<Vec<String>>();
    let audioencodings = audioencodings
        .iter()
        .map(|x| x.to_string())
        .collect::<Vec<String>>();
    let subs = subs.iter().map(|x| x.to_string()).collect::<Vec<String>>();
    let qualities = qualities
        .iter()
        .map(|x| x.to_string())
        .collect::<Vec<String>>();
    let sets = vec![
        webs,
        encodings,
        encodings2,
        encodings3,
        audioencodings,
        subs,
        qualities,
    ];
    let base_example = "Foo";
    for my_set in sets {
        for word in my_set {
            assert_eq!(
                clean_name(&[base_example, " ", word.to_owned().as_str(), ".mp4"].concat()),
                base_example.to_lowercase()
            );
        }
    }
}

#[test]
// Test if get_info works well by generating file basename with info before and after show name
fn get_ep_and_season() {
    let s_and_ep = vec!["S01E02", "S01E10", "S10E02", "S1E02", "S10E12"];
    let gt_s_and_ep = vec![[1, 2], [1, 10], [10, 2], [1, 2], [10, 12]];
    let ep = vec!["- 10", "- 1"];
    let gt_ep = vec![[1, 10], [1, 1]];
    let s_new_and_ep = vec!["(Season 5) - 1", "(Season 2) - 10"];
    let gt_s_new_and_ep = vec![[5, 1], [2, 10]];
    let episode = vec!["Episode 10", "Ep 10", "Episode 2", "Episode 10"];
    let gt_episode = vec![[1, 10], [1, 10], [1, 2], [1, 10]];
    let sets = vec![s_and_ep, ep, s_new_and_ep, episode];
    let gt_sets = vec![gt_s_and_ep, gt_ep, gt_s_new_and_ep, gt_episode];
    let base_example = "Foo";
    for i in 0..sets.len() {
        for j in 0..sets[i].len() {
            println!(
                "Testing : {}",
                &[base_example, " ", sets[i][j], ".mp4"].concat()
            );

            assert_eq!(
                get_info(&[base_example, " ", sets[i][j], ".mp4"].concat()).unwrap(),
                gt_sets[i][j]
            );
            assert_eq!(
                get_info(&[sets[i][j], " ", base_example, ".mp4"].concat()).unwrap(),
                gt_sets[i][j]
            );
        }
    }
}
