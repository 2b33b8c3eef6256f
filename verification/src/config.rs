use vstd::prelude::*;

verus! {

/// Relies on `chrono::Local::now` and `DateTime::format` with
/// `"%Y%m%d_%H%M%S"`: a compact wall-clock timestamp. The value depends
/// on the clock, so nothing is promised of it.
#[verifier::external_body]
fn local_timestamp_compact() -> String {
    chrono::Local::now().format("%Y%m%d_%H%M%S").to_string()
}

/// Render settings for a whole project run.
#[derive(Debug)]
pub struct Config {
    pub width: u32,
    pub height: u32,
    pub fps: u32,
    pub duration_secs: u32,
    pub output_dir: String,
    pub output_name: String,
    pub enable_audio: bool,
    pub preview_realtime: bool,
    pub background_music_path: String,
    pub bounce_sound_path: String,
}

/// The asset warnings a configuration yields, given whether each audio
/// asset exists on disk: none with audio disabled, else one message per
/// missing asset, background first.
pub open spec fn asset_warnings(
    c: Config,
    background_exists: bool,
    bounce_exists: bool,
) -> Seq<Seq<char>> {
    if !c.enable_audio {
        Seq::empty()
    } else {
        let base = Seq::<Seq<char>>::empty();
        let base = if !background_exists {
            base.push("missing background music: "@ + c.background_music_path@)
        } else {
            base
        };
        if !bounce_exists {
            base.push("missing bounce sound: "@ + c.bounce_sound_path@)
        } else {
            base
        }
    }
}

/// The view of each warning string.
pub open spec fn warnings_model(v: Seq<String>) -> Seq<Seq<char>> {
    v.map(|i: int, s: String| s@)
}

/// Joining a file name onto a directory, with forward-slash
/// separators: an absolute name stands alone, an empty directory adds
/// nothing, and a separator is added only where the directory does not
/// already end in one.
pub open spec fn join_model(dir: Seq<char>, name: Seq<char>) -> Seq<char> {
    if name.len() > 0 && name[0] == '/' {
        name
    } else if dir.len() == 0 {
        name
    } else if dir.last() == '/' {
        dir + name
    } else {
        dir + "/"@ + name
    }
}

impl Config {
    /// The number of frames a full render covers, saturating.
    pub fn total_frames(&self) -> (r: u32)
        ensures
            self.fps * self.duration_secs <= u32::MAX ==> r == self.fps * self.duration_secs,
            self.fps * self.duration_secs > u32::MAX ==> r == u32::MAX,
    {
        match self.fps.checked_mul(self.duration_secs) {
            Some(v) => v,
            None => u32::MAX,
        }
    }

    /// The output file path: the output name joined onto the output
    /// directory.
    pub fn output_path(&self) -> (r: String)
        ensures
            r@ == join_model(self.output_dir@, self.output_name@),
    {
        let name_len: usize = self.output_name.as_str().unicode_len();
        if name_len > 0 && self.output_name.as_str().get_char(0) == '/' {
            return self.output_name.clone();
        }
        let dir_len: usize = self.output_dir.as_str().unicode_len();
        if dir_len == 0 {
            return self.output_name.clone();
        }
        let mut s = self.output_dir.clone();
        if self.output_dir.as_str().get_char(dir_len - 1) == '/' {
            s.append(self.output_name.as_str());
            proof {
                assert(s@ =~= self.output_dir@ + self.output_name@);
            }
        } else {
            s.append("/");
            s.append(self.output_name.as_str());
            proof {
                assert(s@ =~= self.output_dir@ + "/"@ + self.output_name@);
            }
        }
        s
    }

    /// The warnings for missing audio assets. The caller reports
    /// whether each asset path exists; checking the disk itself is
    /// outside this core.
    pub fn validate_assets(&self, background_exists: bool, bounce_exists: bool) -> (w: Vec<String>)
        ensures
            warnings_model(w@) == asset_warnings(*self, background_exists, bounce_exists),
    {
        let mut w: Vec<String> = Vec::new();
        proof {
            assert(warnings_model(w@) =~= Seq::<Seq<char>>::empty());
        }
        if !self.enable_audio {
            return w;
        }
        if !background_exists {
            let mut m = String::from_str("missing background music: ");
            m.append(self.background_music_path.as_str());
            let ghost pre = warnings_model(w@);
            w.push(m);
            proof {
                assert(warnings_model(w@) =~= pre.push(
                    "missing background music: "@ + self.background_music_path@,
                ));
            }
        }
        if !bounce_exists {
            let mut m = String::from_str("missing bounce sound: ");
            m.append(self.bounce_sound_path.as_str());
            let ghost pre = warnings_model(w@);
            w.push(m);
            proof {
                assert(warnings_model(w@) =~= pre.push(
                    "missing bounce sound: "@ + self.bounce_sound_path@,
                ));
            }
        }
        w
    }
}

impl Default for Config {
    /// The stock configuration: an 800 by 600 render at 30 frames per
    /// second for 60 seconds, audio and realtime preview on, and an
    /// output name carrying the current wall-clock timestamp.
    fn default() -> (c: Self)
        ensures
            c.width == 800 && c.height == 600 && c.fps == 30 && c.duration_secs == 60,
            c.output_dir@ == "output"@,
            c.enable_audio && c.preview_realtime,
            c.background_music_path@ == "input/background.mp3"@,
            c.bounce_sound_path@ == "input/border.ogg"@,
            exists|ts: Seq<char>| c.output_name@ == "render_"@ + ts + ".mp4"@,
    {
        let ts = local_timestamp_compact();
        let mut output_name = String::from_str("render_");
        output_name.append(ts.as_str());
        output_name.append(".mp4");
        proof {
            assert(output_name@ == "render_"@ + ts@ + ".mp4"@) by {
                assert(output_name@ =~= "render_"@ + ts@ + ".mp4"@);
            }
        }
        Config {
            width: 800,
            height: 600,
            fps: 30,
            duration_secs: 60,
            output_dir: String::from_str("output"),
            output_name,
            enable_audio: true,
            preview_realtime: true,
            background_music_path: String::from_str("input/background.mp3"),
            bounce_sound_path: String::from_str("input/border.ogg"),
        }
    }
}

} // verus!
