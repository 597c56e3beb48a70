//! The values the commands take as input.

use vstd::prelude::*;

verus! {

/// How often `c` occurs in `s`.
pub open spec fn count_char(s: Seq<char>, c: char) -> nat
    decreases s.len(),
{
    if s.len() == 0 {
        0
    } else {
        count_char(s.drop_last(), c) + if s.last() == c {
            1nat
        } else {
            0nat
        }
    }
}

/// An image reference: a name and a tag.
#[derive(Debug)]
pub struct ImageArg {
    /// The name of the image.
    pub name: String,
    /// The tag of the image (for example `latest`).
    pub tag: String,
}

impl Clone for ImageArg {
    fn clone(&self) -> (r: Self)
        ensures
            r == *self,
    {
        ImageArg { name: self.name.clone(), tag: self.tag.clone() }
    }
}

impl ImageArg {
    /// Splits `name:tag`. A reference with exactly one colon is split there;
    /// any other shape is a bare name and the tag defaults to `latest`.
    pub fn from(name: String) -> (r: ImageArg)
        ensures
            count_char(name@, ':') == 1 ==> exists|i: int|
                {
                    &&& 0 <= i < name@.len()
                    &&& name@[i] == ':'
                    &&& r.name@ == name@.subrange(0, i)
                    &&& r.tag@ == name@.subrange(i + 1, name@.len() as int)
                },
            count_char(name@, ':') != 1 ==> r.name@ == name@ && r.tag@ == "latest"@,
    {
        let s = name.as_str();
        let n = s.unicode_len();
        let mut i: usize = 0;
        let mut colons: usize = 0;
        let mut first: usize = n;
        while i < n
            invariant
                0 <= i <= n,
                n == name@.len(),
                s@ == name@,
                colons == count_char(name@.subrange(0, i as int), ':'),
                colons <= i,
                colons == 0 ==> first == n,
                colons > 0 ==> 0 <= first < i && name@[first as int] == ':' && count_char(
                    name@.subrange(0, first as int),
                    ':',
                ) == 0,
            decreases n - i,
        {
            let c = s.get_char(i);
            proof {
                assert(name@.subrange(0, i + 1).drop_last() =~= name@.subrange(0, i as int));
                assert(name@.subrange(0, i + 1).last() == name@[i as int]);
            }
            if c == ':' {
                if colons == 0 {
                    first = i;
                }
                colons = colons + 1;
            }
            i = i + 1;
        }
        proof {
            assert(name@.subrange(0, n as int) =~= name@);
        }
        if colons == 1 {
            let head = s.substring_char(0, first);
            let tail = s.substring_char(first + 1, n);
            let r = ImageArg { name: head.to_owned(), tag: tail.to_owned() };
            proof {
                assert(r.name@ == name@.subrange(0, first as int));
                assert(r.tag@ == name@.subrange(first as int + 1, name@.len() as int));
            }
            r
        } else {
            ImageArg { name, tag: String::from_str("latest") }
        }
    }

    /// The reference written back as `name:tag`.
    pub fn to_string(&self) -> (r: String)
        ensures
            r@ == self.name@ + ":"@ + self.tag@,
    {
        let mut s = self.name.clone();
        s.append(":");
        s.append(self.tag.as_str());
        s
    }
}

/// What the info command is asked about.
#[derive(Debug)]
pub struct ImageInfoArgs {
    /// The image to get info about.
    pub image: ImageArg,
    /// The operating system the image is for.
    pub os: String,
    /// The architecture the image is for.
    pub architecture: String,
}

/// What the build command is asked to produce.
#[derive(Debug)]
pub struct BuildImageArgs {
    /// The image to pull.
    pub image: ImageArg,
    /// The operating system the image is for.
    pub os: String,
    /// The architecture the image is for.
    pub architecture: String,
    /// Write the image here instead of the image directory.
    pub outfile: Option<String>,
}

/// What the remove command is asked to drop.
#[derive(Debug)]
pub struct RemoveImageArgs {
    /// The image to remove.
    pub image: ImageArg,
    /// Also drop the layers no remaining image references.
    pub prune: bool,
    /// The operating system the image is for.
    pub os: Option<String>,
    /// The architecture the image is for.
    pub architecture: Option<String>,
}

/// Filters for the listing command.
#[derive(Debug)]
pub struct ListImagesArgs {
    /// The operating system to list images for.
    pub os: Option<String>,
    /// The platform to list images for.
    pub platform: Option<String>,
}

} // verus!
