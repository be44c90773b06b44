//! Points and point clouds: building them, reading them, adding and
//! dropping fields, and merging clouds.

use vstd::prelude::*;

use crate::error::CloudError;
use crate::layout::{arrange_point, arranged, lemma_arranged_xyz_first};
use crate::names::{
    contains_name, filename_name, is_named, names_of, same_names, x_name, y_name, z_name,
};

verus! {

/// One point: for each field of its cloud, the value of the point in that
/// field and the colour under which that value is shown.
#[derive(Clone, Debug)]
pub struct Point<F, C> {
    fields: Vec<(F, C)>,
}

impl<F, C> View for Point<F, C> {
    type V = Seq<(F, C)>;

    closed spec fn view(&self) -> Seq<(F, C)> {
        self.fields@
    }
}

impl<F: Copy, C: Copy> Point<F, C> {
    /// A point with the given (value, colour) pairs, one per field.
    pub fn new(fields: Vec<(F, C)>) -> (res: Result<Self, CloudError>)
        ensures
            res matches Ok(p) && p@ == fields@,
    {
        Ok(Point { fields })
    }

    /// The (value, colour) pairs of the point, one per field.
    pub fn fields(&self) -> (fields: &Vec<(F, C)>)
        ensures
            fields@ == self@,
    {
        &self.fields
    }

    /// The value of the point in field `index`.
    pub fn get_field(&self, index: usize) -> (v: F)
        requires
            index < self@.len(),
        ensures
            v == self@[index as int].0,
    {
        self.fields[index].0
    }

    /// The first coordinate of the point.
    pub fn x(&self) -> (v: F)
        requires
            self@.len() > 0,
        ensures
            v == self@[0].0,
    {
        self.get_field(0)
    }

    /// The second coordinate of the point.
    pub fn y(&self) -> (v: F)
        requires
            self@.len() > 1,
        ensures
            v == self@[1].0,
    {
        self.get_field(1)
    }

    /// The third coordinate of the point.
    pub fn z(&self) -> (v: F)
        requires
            self@.len() > 2,
        ensures
            v == self@[2].0,
    {
        self.get_field(2)
    }

    /// The colour of the point in field `index`.
    pub fn get_field_color(&self, index: usize) -> (c: C)
        requires
            index < self@.len(),
        ensures
            c == self@[index as int].1,
    {
        self.fields[index].1
    }
}

/// The abstract content of a point cloud.
pub struct CloudView<F, C> {
    /// The fields of each point, row after row for an organized cloud.
    pub points: Seq<Seq<(F, C)>>,
    /// The names of the fields.
    pub field_names: Seq<Seq<char>>,
    /// Number of columns of an organized cloud, otherwise number of points.
    pub width: usize,
    /// Number of rows of an organized cloud, otherwise 1.
    pub height: usize,
}

/// A point cloud: its points, stored row after row (row 0 at the bottom,
/// column 0 at the left) when it is organized, and the names of its fields.
#[derive(Debug)]
pub struct PointCloud<F, C> {
    points: Vec<Point<F, C>>,
    field_names: Vec<String>,
    width: usize,
    height: usize,
}

/// The field sequences of a sequence of points.
pub open spec fn fields_of<F, C>(points: Seq<Point<F, C>>) -> Seq<Seq<(F, C)>> {
    points.map_values(|p: Point<F, C>| p@)
}

/// The names of a point cloud start with `x`, `y` and `z`.
pub open spec fn starts_with_xyz(names: Seq<Seq<char>>) -> bool {
    &&& names.len() >= 3
    &&& names[0] == x_name()
    &&& names[1] == y_name()
    &&& names[2] == z_name()
}

/// The error that building a point cloud with these names, number of points,
/// width and height gives, checked in this order; `None` when it succeeds.
pub open spec fn creation_error(names: Seq<Seq<char>>, len: nat, width: nat, height: nat) -> Option<
    CloudError,
> {
    if names[0] != x_name() {
        Some(CloudError::FirstFieldNotX)
    } else if names[1] != y_name() {
        Some(CloudError::SecondFieldNotY)
    } else if names[2] != z_name() {
        Some(CloudError::ThirdFieldNotZ)
    } else if width * height != len {
        Some(CloudError::SizeMismatch { width: width as usize, height: height as usize, len: len as usize })
    } else if height == 0 {
        Some(CloudError::ZeroHeight)
    } else {
        None
    }
}

impl<F, C> View for PointCloud<F, C> {
    type V = CloudView<F, C>;

    closed spec fn view(&self) -> CloudView<F, C> {
        CloudView {
            points: fields_of(self.points@),
            field_names: names_of(self.field_names@),
            width: self.width,
            height: self.height,
        }
    }
}

impl<F, C> PointCloud<F, C> {
    /// Every point cloud has the fields `x`, `y` and `z` first, at least one
    /// row, and `width * height` points.
    #[verifier::type_invariant]
    closed spec fn well_formed(self) -> bool {
        &&& starts_with_xyz(names_of(self.field_names@))
        &&& self.height > 0
        &&& self.width * self.height == self.points@.len()
    }
}

impl<F, C> CloudView<F, C> {
    /// A cloud as built by `PointCloud::new`: its fields start with `x`,
    /// `y` and `z`, in this order, it has at least one row, and
    /// `width * height` points.
    pub open spec fn wf(self) -> bool {
        &&& starts_with_xyz(self.field_names)
        &&& self.height > 0
        &&& self.width * self.height == self.points.len()
    }
}

impl<F: Copy, C: Copy> PointCloud<F, C> {
    /// Builds a point cloud, checking that its fields start with `x`, `y`
    /// and `z` and that `width * height` is the number of points, with a
    /// height of at least one.
    pub fn new(points: Vec<Point<F, C>>, field_names: Vec<String>, width: usize, height: usize) -> (res:
        Result<Self, CloudError>)
        requires
            field_names.len() >= 3,
        ensures
            result_view(res) == built_cloud(names_of(field_names@), fields_of(points@), width, height),
            res matches Ok(pc) ==> pc@.wf(),
    {
        let len = points.len();
        proof {
            reveal_strlit("x");
            reveal_strlit("y");
            reveal_strlit("z");
            assert("x"@ =~= x_name());
            assert("y"@ =~= y_name());
            assert("z"@ =~= z_name());
            let names = names_of(field_names@);
            assert(names[0] == field_names@[0]@);
            assert(names[1] == field_names@[1]@);
            assert(names[2] == field_names@[2]@);
        }
        if !is_named(&field_names[0], "x") {
            return Err(CloudError::FirstFieldNotX);
        }
        if !is_named(&field_names[1], "y") {
            return Err(CloudError::SecondFieldNotY);
        }
        if !is_named(&field_names[2], "z") {
            return Err(CloudError::ThirdFieldNotZ);
        }
        match width.checked_mul(height) {
            Some(product) => {
                if product != len {
                    return Err(CloudError::SizeMismatch { width, height, len });
                }
            },
            None => {
                return Err(CloudError::SizeMismatch { width, height, len });
            },
        }
        if height == 0 {
            return Err(CloudError::ZeroHeight);
        }
        Ok(PointCloud { points, field_names, width, height })
    }

    /// Builds a point cloud from records already read from a file: the
    /// fields of point `i` are arranged from `plain_rows[i]` and
    /// `mirrored_rows[i]` as `arrange_point` does, then the cloud is checked
    /// as `new` checks it.
    pub fn from_field_rows(
        field_names: Vec<String>,
        plain_rows: Vec<Vec<(F, C)>>,
        mirrored_rows: Vec<Vec<(F, C)>>,
        default: (F, C),
        width: usize,
        height: usize,
    ) -> (res: Result<Self, CloudError>)
        requires
            field_names.len() >= 3,
            plain_rows.len() == mirrored_rows.len(),
            forall|i: int| 0 <= i < plain_rows.len() ==> #[trigger] plain_rows@[i].len() >= field_names.len(),
            forall|i: int| 0 <= i < mirrored_rows.len() ==> #[trigger] mirrored_rows@[i].len() >= field_names.len(),
        ensures
            result_view(res) == built_cloud(
                names_of(field_names@),
                rows_arranged(names_of(field_names@), plain_rows@, mirrored_rows@, default),
                width,
                height,
            ),
            res matches Ok(pc) ==> pc@.wf(),
    {
        let ghost names = names_of(field_names@);
        let n = plain_rows.len();
        let mut points: Vec<Point<F, C>> = Vec::new();
        let mut i: usize = 0;
        while i < n
            invariant
                n == plain_rows.len(),
                n == mirrored_rows.len(),
                i <= n,
                names == names_of(field_names@),
                forall|j: int| 0 <= j < n ==> #[trigger] plain_rows@[j].len() >= field_names.len(),
                forall|j: int| 0 <= j < n ==> #[trigger] mirrored_rows@[j].len() >= field_names.len(),
                points.len() == i,
                forall|j: int|
                    0 <= j < i ==> #[trigger] points@[j]@ == arranged(
                        names,
                        plain_rows@[j]@,
                        mirrored_rows@[j]@,
                        default,
                    ),
            decreases n - i,
        {
            let fields = arrange_point(&field_names, &plain_rows[i], &mirrored_rows[i], default);
            points.push(Point { fields });
            i += 1;
        }
        proof {
            assert(fields_of(points@) =~= rows_arranged(names, plain_rows@, mirrored_rows@, default));
        }
        PointCloud::new(points, field_names, width, height)
    }

    /// Builds a cloud that is not organized from records already read from a
    /// file: one point per record, as `from_field_rows` builds them, with the
    /// number of records as width and a height of 1.
    pub fn from_unorganized_rows(
        field_names: Vec<String>,
        plain_rows: Vec<Vec<(F, C)>>,
        mirrored_rows: Vec<Vec<(F, C)>>,
        default: (F, C),
    ) -> (res: Result<Self, CloudError>)
        requires
            field_names.len() >= 3,
            plain_rows.len() == mirrored_rows.len(),
            forall|i: int| 0 <= i < plain_rows.len() ==> #[trigger] plain_rows@[i].len() >= field_names.len(),
            forall|i: int| 0 <= i < mirrored_rows.len() ==> #[trigger] mirrored_rows@[i].len() >= field_names.len(),
        ensures
            result_view(res) == built_cloud(
                names_of(field_names@),
                rows_arranged(names_of(field_names@), plain_rows@, mirrored_rows@, default),
                plain_rows.len(),
                1,
            ),
            res matches Ok(pc) ==> pc@.wf() && pc@.width == plain_rows.len() && pc@.height == 1,
    {
        let width = plain_rows.len();
        Self::from_field_rows(field_names, plain_rows, mirrored_rows, default, width, 1)
    }

    /// The colour of the point at (`row`, `column`) in field `index`.
    pub fn field_color_at(&self, row: usize, column: usize, index: usize) -> (c: C)
        requires
            row * self@.width + column < self@.points.len(),
            index < self@.points[row * self@.width + column].len(),
        ensures
            c == self@.points[row * self@.width + column][index as int].1,
    {
        let n = self.points.len();
        proof {
            assert(0 <= row * self.width) by (nonlinear_arith);
            assert(self@.points.len() == self.points@.len());
            assert(self.points@[row * self.width + column]@ == self@.points[row * self@.width + column]);
        }
        let start = row * self.width;
        self.points[start + column].get_field_color(index)
    }

    /// The number of fields of the cloud.
    pub fn fields_number(&self) -> (n: usize)
        ensures
            n == self@.field_names.len(),
            n >= 3,
            self@.wf(),
    {
        proof {
            use_type_invariant(self);
        }
        self.field_names.len()
    }

    /// The name of field `index`.
    pub fn get_field_name(&self, index: usize) -> (name: &str)
        requires
            index < self@.field_names.len(),
        ensures
            name@ == self@.field_names[index as int],
    {
        self.field_names[index].as_str()
    }

    /// Whether the cloud is organized, that is, has more (or fewer) than one row.
    pub fn is_organized(&self) -> (b: bool)
        ensures
            b == (self@.height != 1),
    {
        self.height != 1
    }

    /// The points of the cloud.
    pub fn points(&self) -> (points: &Vec<Point<F, C>>)
        ensures
            fields_of(points@) == self@.points,
            self@.wf(),
    {
        proof {
            use_type_invariant(self);
        }
        &self.points
    }

    /// The number of columns of an organized cloud, otherwise its number of points.
    pub fn width(&self) -> (w: usize)
        ensures
            w == self@.width,
            w * self@.height == self@.points.len(),
            self@.wf(),
    {
        proof {
            use_type_invariant(self);
        }
        self.width
    }

    /// The number of rows of an organized cloud, otherwise 1.
    pub fn height(&self) -> (h: usize)
        ensures
            h == self@.height,
            h > 0,
            self@.width * h == self@.points.len(),
            self@.wf(),
    {
        proof {
            use_type_invariant(self);
        }
        self.height
    }

    /// The colour of every point in field `index`, in the order of the points.
    pub fn field_colors(&self, index: usize) -> (colors: Vec<C>)
        requires
            forall|i: int| 0 <= i < self@.points.len() ==> index < (#[trigger] self@.points[i]).len(),
        ensures
            colors@ == Seq::new(self@.points.len(), |i: int| self@.points[i][index as int].1),
    {
        let n = self.points.len();
        let mut colors: Vec<C> = Vec::new();
        let mut i: usize = 0;
        while i < n
            invariant
                n == self.points.len(),
                n == self@.points.len(),
                i <= n,
                forall|j: int| 0 <= j < n ==> index < (#[trigger] self@.points[j]).len(),
                colors.len() == i,
                forall|j: int| 0 <= j < i ==> #[trigger] colors@[j] == self@.points[j][index as int].1,
            decreases n - i,
        {
            proof {
                assert(self.points@[i as int]@ == self@.points[i as int]);
            }
            colors.push(self.points[i].get_field_color(index));
            i += 1;
        }
        proof {
            assert(colors@ =~= Seq::new(self@.points.len(), |i: int| self@.points[i][index as int].1));
        }
        colors
    }

    /// The colours in field `index` of an image of the cloud, `width` pixels
    /// wide and `height` high, row after row from the top: the pixel at
    /// (`row`, `column`) shows the point at (`height - 1 - row`, `column`),
    /// since the row 0 of the cloud is its bottom one.
    pub fn image_colors(&self, index: usize) -> (colors: Vec<C>)
        requires
            forall|i: int| 0 <= i < self@.points.len() ==> index < (#[trigger] self@.points[i]).len(),
        ensures
            colors.len() == self@.width * self@.height,
            forall|row: int, column: int|
                0 <= row < self@.height && 0 <= column < self@.width ==> colors@[row * self@.width
                    + column] == #[trigger] self@.points[(self@.height - 1 - row) * self@.width
                    + column][index as int].1,
    {
        proof {
            use_type_invariant(self);
        }
        let w = self.width;
        let h = self.height;
        let n = self.points.len();
        let mut colors: Vec<C> = Vec::new();
        let mut row: usize = 0;
        while row < h
            invariant
                w == self@.width,
                h == self@.height,
                n == self@.points.len(),
                n == self.points.len(),
                w * h <= n,
                row <= h,
                forall|i: int| 0 <= i < n ==> index < (#[trigger] self@.points[i]).len(),
                colors.len() == row * w,
                forall|r: int, c: int|
                    0 <= r < row && 0 <= c < w ==> colors@[r * w + c] == #[trigger] self@.points[(h - 1
                        - r) * w + c][index as int].1,
            decreases h - row,
        {
            let source_row = h - 1 - row;
            let mut column: usize = 0;
            while column < w
                invariant
                    w == self@.width,
                    h == self@.height,
                    n == self@.points.len(),
                    n == self.points.len(),
                    w * h <= n,
                    row < h,
                    source_row == h - 1 - row,
                    column <= w,
                    forall|i: int| 0 <= i < n ==> index < (#[trigger] self@.points[i]).len(),
                    colors.len() == row * w + column,
                    forall|r: int, c: int|
                        0 <= r < row && 0 <= c < w ==> colors@[r * w + c] == #[trigger] self@.points[(h
                            - 1 - r) * w + c][index as int].1,
                    forall|c: int|
                        0 <= c < column ==> colors@[row * w + c] == #[trigger] self@.points[(h - 1
                            - row) * w + c][index as int].1,
                decreases w - column,
            {
                proof {
                    assert(source_row * w + column < w * h) by (nonlinear_arith)
                        requires
                            source_row < h,
                            column < w,
                    ;
                }
                let color = self.field_color_at(source_row, column, index);
                let ghost before = colors@;
                colors.push(color);
                proof {
                    assert(row * w + column == before.len());
                    assert forall|r: int, c: int|
                        0 <= r < row && 0 <= c < w implies colors@[r * w + c]
                        == #[trigger] self@.points[(h - 1 - r) * w + c][index as int].1 by {
                        assert(r * w + c < row * w) by (nonlinear_arith)
                            requires
                                r < row,
                                c < w,
                        ;
                        assert(colors@[r * w + c] == before[r * w + c]);
                    }
                }
                column += 1;
            }
            proof {
                assert((row + 1) * w == row * w + w) by (nonlinear_arith);
                assert forall|r: int, c: int|
                    0 <= r < row + 1 && 0 <= c < w implies colors@[r * w + c]
                    == #[trigger] self@.points[(h - 1 - r) * w + c][index as int].1 by {
                    if r == row {
                    } else {
                    }
                }
            }
            row += 1;
        }
        proof {
            assert(h * w == w * h) by (nonlinear_arith);
        }
        colors
    }

    /// An empty cloud with only the fields `x`, `y` and `z`, put in the
    /// place of a cloud while it is rebuilt.
    fn placeholder() -> (pc: Self)
        ensures
            pc@.points.len() == 0,
    {
        let mut field_names: Vec<String> = Vec::new();
        field_names.push(String::from_str("x"));
        field_names.push(String::from_str("y"));
        field_names.push(String::from_str("z"));
        proof {
            reveal_strlit("x");
            reveal_strlit("y");
            reveal_strlit("z");
            assert("x"@ =~= x_name());
            assert("y"@ =~= y_name());
            assert("z"@ =~= z_name());
            assert(names_of(field_names@) =~= seq![x_name(), y_name(), z_name()]);
        }
        PointCloud { points: Vec::new(), field_names, width: 0, height: 1 }
    }

    /// Adds a field named `field`, in which every point has `value` shown in `color`.
    pub fn add_field(&mut self, field: String, value: F, color: C)
        ensures
            final(self)@.wf(),
            final(self)@.field_names == old(self)@.field_names.push(field@),
            final(self)@.points == old(self)@.points.map_values(
                |f: Seq<(F, C)>| f.push((value, color)),
            ),
            final(self)@.width == old(self)@.width,
            final(self)@.height == old(self)@.height,
    {
        let mut whole = Self::placeholder();
        std::mem::swap(&mut whole, self);
        proof {
            use_type_invariant(&whole);
        }
        let PointCloud { mut points, mut field_names, width, height } = whole;
        let ghost old_names = field_names@;
        let ghost old_points = points@;
        field_names.push(field);
        push_to_all(&mut points, value, color);
        proof {
            assert(names_of(field_names@) =~= names_of(old_names).push(field@));
            assert(names_of(field_names@)[0] == names_of(old_names)[0]);
            assert(names_of(field_names@)[1] == names_of(old_names)[1]);
            assert(names_of(field_names@)[2] == names_of(old_names)[2]);
            assert(fields_of(points@).len() == fields_of(old_points).len());
        }
        *self = PointCloud { points, field_names, width, height };
    }

    /// Keeps only the fields `x`, `y` and `z`.
    pub fn truncate_xyz(&mut self)
        ensures
            final(self)@.wf(),
            final(self)@.field_names == old(self)@.field_names.take(3),
            final(self)@.field_names == seq![x_name(), y_name(), z_name()],
            final(self)@.points == old(self)@.points.map_values(|f: Seq<(F, C)>| keep_xyz(f)),
            final(self)@.width == old(self)@.width,
            final(self)@.height == old(self)@.height,
    {
        let mut whole = Self::placeholder();
        std::mem::swap(&mut whole, self);
        proof {
            use_type_invariant(&whole);
        }
        let PointCloud { mut points, mut field_names, width, height } = whole;
        let ghost old_names = field_names@;
        let ghost old_points = points@;
        field_names.truncate(3);
        truncate_all(&mut points);
        proof {
            assert(names_of(field_names@) =~= names_of(old_names).take(3));
            assert(names_of(field_names@) =~= seq![x_name(), y_name(), z_name()]);
            assert(fields_of(points@).len() == fields_of(old_points).len());
        }
        *self = PointCloud { points, field_names, width, height };
    }

    /// Merges point clouds into one. Each cloud `i` gets a new field
    /// `filename` in which all its points have the value and colour
    /// `tags[i]`. When the clouds do not all have the same fields, only `x`,
    /// `y` and `z` are kept. The points of the last cloud come first,
    /// followed by those of the others in their order; the merged cloud is
    /// not organized (its width is its number of points, its height 1). A
    /// single cloud is returned as it is.
    pub fn merge(point_clouds: Vec<Self>, tags: Vec<(F, C)>) -> (res: Result<Self, CloudError>)
        requires
            tags.len() == point_clouds.len(),
        ensures
            result_view(res) == merge_result(views_of(point_clouds@), tags@),
            res matches Ok(pc) ==> pc@.wf(),
    {
        let ghost clouds_in = views_of(point_clouds@);
        let n = point_clouds.len();
        if n == 0 {
            return Err(CloudError::NoPointClouds);
        }
        let mut clouds = point_clouds;
        let mut last = match clouds.pop() {
            Some(pc) => pc,
            None => {
                return Err(CloudError::NoPointClouds);
            },
        };
        proof {
            use_type_invariant(&last);
        }
        let ghost last_in = last@;
        assert(last_in == clouds_in[n - 1]);
        if n == 1 {
            return Ok(last);
        }
        let m = n - 1;
        assert(forall|j: int| 0 <= j < m ==> #[trigger] clouds@[j]@ == clouds_in[j]);

        // Do all clouds have the fields of the last one?
        let mut same = true;
        let mut i: usize = 0;
        while i < m && same
            invariant
                m == clouds.len(),
                m == n - 1,
                i <= m,
                same ==> forall|j: int| 0 <= j < i ==> #[trigger] clouds@[j]@.field_names == last@.field_names,
                !same ==> !same_fields(clouds_in),
                m + 1 == clouds_in.len(),
                forall|j: int| 0 <= j < m ==> #[trigger] clouds@[j]@ == clouds_in[j],
                last@ == clouds_in[n - 1],
            decreases m - i + (if same { 1int } else { 0int }),
        {
            if !same_names(&clouds[i].field_names, &last.field_names) {
                proof {
                    assert(clouds@[i as int]@ == clouds_in[i as int]);
                    assert(clouds@[i as int]@.field_names == names_of(clouds@[i as int].field_names@));
                    assert(last@.field_names == names_of(last.field_names@));
                    assert(clouds_in.last() == clouds_in[m as int]);
                    assert(clouds_in[i as int].field_names != clouds_in.last().field_names);
                }
                same = false;
            } else {
                i += 1;
            }
        }
        proof {
            if same {
                assert forall|j: int| 0 <= j < clouds_in.len() implies #[trigger] clouds_in[j].field_names
                    == clouds_in.last().field_names by {
                    if j < m {
                        assert(clouds@[j]@ == clouds_in[j]);
                    }
                }
            }
            reveal_strlit("filename");
            assert("filename"@ =~= filename_name());
        }
        if contains_name(&last.field_names, "filename") {
            return Err(CloudError::FilenameFieldExists);
        }
        if !same {
            last.truncate_xyz();
        }
        let last_tag = tags[m];
        last.add_field(String::from_str("filename"), last_tag.0, last_tag.1);
        proof {
            use_type_invariant(&last);
        }
        let PointCloud { points: mut points, field_names, width, height } = last;
        proof {
            assert(fields_of(points@) =~= tag_points(last_in.points, same, tags@[m as int]) + tagged_points(
                clouds_in,
                tags@,
                same,
                0,
            ));
        }

        // Put the other clouds in reverse order, so that they come out in order.
        let mut pending: Vec<Self> = Vec::new();
        while clouds.len() > 0
            invariant
                clouds.len() + pending.len() == m,
                m + 1 == clouds_in.len(),
                forall|j: int| 0 <= j < clouds.len() ==> #[trigger] clouds@[j]@ == clouds_in[j],
                forall|j: int| 0 <= j < pending.len() ==> #[trigger] pending@[j]@ == clouds_in[m - 1 - j],
            decreases clouds.len(),
        {
            let ghost before = clouds@;
            match clouds.pop() {
                Some(pc) => {
                    pending.push(pc);
                },
                None => {},
            }
            assert(forall|j: int| 0 <= j < clouds.len() ==> clouds@[j] == before[j]);
        }

        let mut k: usize = 0;
        while k < m
            invariant
                m == n - 1,
                n == tags.len(),
                k <= m,
                m + 1 == clouds_in.len(),
                pending.len() == m - k,
                forall|j: int| 0 <= j < pending.len() ==> #[trigger] pending@[j]@ == clouds_in[m - 1 - j],
                fields_of(points@) == tag_points(last_in.points, same, tags@[m as int]) + tagged_points(
                    clouds_in,
                    tags@,
                    same,
                    k as nat,
                ),
            decreases m - k,
        {
            let ghost before = pending@;
            let mut cloud = match pending.pop() {
                Some(pc) => pc,
                None => {
                    return Err(CloudError::NoPointClouds);
                },
            };
            let ghost orig = clouds_in[k as int].points;
            assert(cloud@ == clouds_in[k as int]);
            if !same {
                cloud.truncate_xyz();
            }
            let ghost mid = cloud@.points;
            assert(mid == if same { orig } else { orig.map_values(|f: Seq<(F, C)>| keep_xyz(f)) });
            let tag = tags[k];
            cloud.add_field(String::from_str("filename"), tag.0, tag.1);
            proof {
                let now = cloud@.points;
                assert(now == mid.map_values(|f: Seq<(F, C)>| f.push(tag)));
                assert(now =~= tag_points(orig, same, tags@[k as int]));
            }
            let PointCloud { points: mut taken, .. } = cloud;
            let ghost cl_raw = taken@;
            let ghost last_raw = points@;
            points.append(&mut taken);
            proof {
                assert(points@ == last_raw + cl_raw);
                assert(fields_of(points@) =~= fields_of(last_raw) + fields_of(cl_raw));
                assert(forall|j: int| 0 <= j < pending.len() ==> pending@[j] == before[j]);
            }
            k += 1;
        }
        let total = points.len();
        proof {
            assert(total * 1 == total);
        }
        Ok(PointCloud { points, field_names, width: total, height: 1 })
    }
}

/// The views of a sequence of point clouds.
pub open spec fn views_of<F, C>(clouds: Seq<PointCloud<F, C>>) -> Seq<CloudView<F, C>> {
    clouds.map_values(|pc: PointCloud<F, C>| pc@)
}

/// Every cloud has the same field names as the last one.
pub open spec fn same_fields<F, C>(clouds: Seq<CloudView<F, C>>) -> bool {
    forall|i: int| 0 <= i < clouds.len() ==> #[trigger] clouds[i].field_names == clouds.last().field_names
}

/// The fields of a point once it is tagged by the cloud it comes from; when the
/// clouds do not share their fields, only `x`, `y` and `z` are kept before the tag.
pub open spec fn tag_fields<F, C>(f: Seq<(F, C)>, same: bool, tag: (F, C)) -> Seq<(F, C)> {
    if same {
        f.push(tag)
    } else {
        keep_xyz(f).push(tag)
    }
}

/// The points of a cloud, each tagged by `tag`.
pub open spec fn tag_points<F, C>(points: Seq<Seq<(F, C)>>, same: bool, tag: (F, C)) -> Seq<
    Seq<(F, C)>,
> {
    points.map_values(|f: Seq<(F, C)>| tag_fields(f, same, tag))
}

/// The tagged points of the first `k` clouds, in the order of the clouds.
pub open spec fn tagged_points<F, C>(
    clouds: Seq<CloudView<F, C>>,
    tags: Seq<(F, C)>,
    same: bool,
    k: nat,
) -> Seq<Seq<(F, C)>>
    decreases k,
{
    if k == 0 {
        seq![]
    } else {
        tagged_points(clouds, tags, same, (k - 1) as nat) + tag_points(
            clouds[k - 1].points,
            same,
            tags[k - 1],
        )
    }
}

/// What merging `clouds` gives, each cloud `i` tagged by `tags[i]` in a new
/// `filename` field: the points of the last cloud first, then those of the
/// others in their order. The merged cloud is not organized: its width is
/// its number of points and its height 1. Clouds that do not share their
/// fields keep only `x`, `y` and `z`.
pub open spec fn merge_result<F, C>(clouds: Seq<CloudView<F, C>>, tags: Seq<(F, C)>) -> Result<
    CloudView<F, C>,
    CloudError,
> {
    let n = clouds.len();
    if n == 0 {
        Err(CloudError::NoPointClouds)
    } else if n == 1 {
        Ok(clouds[0])
    } else {
        let last = clouds[n - 1];
        if last.field_names.contains(filename_name()) {
            Err(CloudError::FilenameFieldExists)
        } else {
            let same = same_fields(clouds);
            let names = if same {
                last.field_names
            } else {
                last.field_names.take(3)
            };
            let points = tag_points(last.points, same, tags[n - 1]) + tagged_points(
                clouds,
                tags,
                same,
                (n - 1) as nat,
            );
            Ok(
                CloudView {
                    points,
                    field_names: names.push(filename_name()),
                    width: points.len() as usize,
                    height: 1,
                },
            )
        }
    }
}

/// The arranged fields of each record; see `arranged`.
pub open spec fn rows_arranged<F, C>(
    names: Seq<Seq<char>>,
    plain_rows: Seq<Vec<(F, C)>>,
    mirrored_rows: Seq<Vec<(F, C)>>,
    default: (F, C),
) -> Seq<Seq<(F, C)>> {
    Seq::new(
        plain_rows.len(),
        |i: int| arranged(names, plain_rows[i]@, mirrored_rows[i]@, default),
    )
}

/// What building a point cloud with these fields and points gives.
pub open spec fn built_cloud<F, C>(
    names: Seq<Seq<char>>,
    points: Seq<Seq<(F, C)>>,
    width: usize,
    height: usize,
) -> Result<CloudView<F, C>, CloudError> {
    match creation_error(names, points.len(), width as nat, height as nat) {
        Some(e) => Err(e),
        None => Ok(CloudView { points, field_names: names, width, height }),
    }
}

/// The view of a result of an operation on point clouds.
pub open spec fn result_view<F, C>(res: Result<PointCloud<F, C>, CloudError>) -> Result<
    CloudView<F, C>,
    CloudError,
> {
    match res {
        Ok(pc) => Ok(pc@),
        Err(e) => Err(e),
    }
}

/// The fields of a point once all but `x`, `y` and `z` are dropped.
pub open spec fn keep_xyz<F, C>(f: Seq<(F, C)>) -> Seq<(F, C)> {
    if f.len() <= 3 {
        f
    } else {
        f.take(3)
    }
}

/// Appends the pair (`value`, `color`) to the fields of every point.
fn push_to_all<F: Copy, C: Copy>(points: &mut Vec<Point<F, C>>, value: F, color: C)
    ensures
        fields_of(final(points)@) == fields_of(old(points)@).map_values(
            |f: Seq<(F, C)>| f.push((value, color)),
        ),
{
    let n = points.len();
    let mut i: usize = 0;
    while i < n
        invariant
            n == points.len(),
            n == old(points).len(),
            i <= n,
            forall|j: int| 0 <= j < i ==> #[trigger] points@[j]@ == old(points)@[j]@.push((value, color)),
            forall|j: int| i <= j < n ==> #[trigger] points@[j]@ == old(points)@[j]@,
        decreases n - i,
    {
        let ghost before = points@;
        points[i].fields.push((value, color));
        assert(points@[i as int]@ == before[i as int]@.push((value, color)));
        assert(forall|j: int| 0 <= j < n && j != i ==> points@[j] == before[j]);
        i += 1;
    }
    assert(fields_of(points@) =~= fields_of(old(points)@).map_values(
        |f: Seq<(F, C)>| f.push((value, color)),
    ));
}

/// Drops every field of every point but the first three.
fn truncate_all<F: Copy, C: Copy>(points: &mut Vec<Point<F, C>>)
    ensures
        fields_of(final(points)@) == fields_of(old(points)@).map_values(|f: Seq<(F, C)>| keep_xyz(f)),
{
    let n = points.len();
    let mut i: usize = 0;
    while i < n
        invariant
            n == points.len(),
            n == old(points).len(),
            i <= n,
            forall|j: int| 0 <= j < i ==> #[trigger] points@[j]@ == keep_xyz(old(points)@[j]@),
            forall|j: int| i <= j < n ==> #[trigger] points@[j]@ == old(points)@[j]@,
        decreases n - i,
    {
        let ghost before = points@;
        points[i].fields.truncate(3);
        assert(points@[i as int]@ =~= keep_xyz(before[i as int]@));
        assert(forall|j: int| 0 <= j < n && j != i ==> points@[j] == before[j]);
        i += 1;
    }
    assert(fields_of(points@) =~= fields_of(old(points)@).map_values(|f: Seq<(F, C)>| keep_xyz(f)));
}

impl<F, C> CloudView<F, C> {
    /// Every point has one entry per field of the cloud.
    pub open spec fn consistent(self) -> bool {
        forall|i: int| 0 <= i < self.points.len() ==> (#[trigger] self.points[i]).len() == self.field_names.len()
    }
}

/// The number of points of the first `k` clouds.
pub open spec fn total_points<F, C>(clouds: Seq<CloudView<F, C>>, k: nat) -> nat
    decreases k,
{
    if k == 0 {
        0
    } else {
        total_points(clouds, (k - 1) as nat) + clouds[k - 1].points.len()
    }
}

/// The tagged points of the first `k` clouds are, in order, those of each
/// cloud: point `j` of cloud `i` comes after the points of the clouds before it.
pub proof fn lemma_tagged_points_index<F, C>(
    clouds: Seq<CloudView<F, C>>,
    tags: Seq<(F, C)>,
    same: bool,
    k: nat,
)
    requires
        k <= clouds.len(),
        k <= tags.len(),
    ensures
        tagged_points(clouds, tags, same, k).len() == total_points(clouds, k),
        forall|i: int, j: int|
            0 <= i < k && 0 <= j < clouds[i].points.len() ==> #[trigger] tagged_points(clouds, tags, same, k)[total_points(
                clouds,
                i as nat,
            ) + j] == tag_fields(#[trigger] clouds[i].points[j], same, tags[i]),
    decreases k,
{
    if k > 0 {
        let km = (k - 1) as nat;
        lemma_tagged_points_index(clouds, tags, same, km);
        let prev = tagged_points(clouds, tags, same, km);
        let block = tag_points(clouds[km as int].points, same, tags[km as int]);
        assert(tagged_points(clouds, tags, same, k) == prev + block);
        assert forall|i: int, j: int|
            0 <= i < k && 0 <= j < clouds[i].points.len() implies #[trigger] tagged_points(
            clouds,
            tags,
            same,
            k,
        )[total_points(clouds, i as nat) + j] == tag_fields(#[trigger] clouds[i].points[j], same, tags[i]) by {
            if i < km {
                lemma_total_points_monotone(clouds, (i + 1) as nat, km);
                assert(total_points(clouds, (i + 1) as nat) == total_points(clouds, i as nat)
                    + clouds[i].points.len());
            } else {
                assert(i == km);
                assert(block[j] == tag_fields(clouds[i].points[j], same, tags[i]));
            }
        }
    }
}

/// The points of the first clouds are no more than those of more clouds.
pub proof fn lemma_total_points_monotone<F, C>(clouds: Seq<CloudView<F, C>>, a: nat, b: nat)
    requires
        a <= b,
    ensures
        total_points(clouds, a) <= total_points(clouds, b),
    decreases b,
{
    if a < b {
        lemma_total_points_monotone(clouds, a, (b - 1) as nat);
    }
}

/// A merge keeps every point: the merged cloud has as many points as all
/// the clouds together, those of the last cloud first. Point `j` of the last
/// cloud becomes point `j`, and point `j` of cloud `i < n - 1` becomes point
/// `L + p + j`, where `L` is the number of points of the last cloud and `p`
/// that of the clouds before `i`; each merged point ends with the tag of the
/// cloud it came from.
pub proof fn lemma_merge_keeps_points<F, C>(clouds: Seq<CloudView<F, C>>, tags: Seq<(F, C)>)
    requires
        clouds.len() >= 2,
        tags.len() == clouds.len(),
        merge_result(clouds, tags) is Ok,
    ensures
        ({
            let n = clouds.len();
            let last = clouds[n - 1];
            let merged = merge_result(clouds, tags)->Ok_0;
            let same = same_fields(clouds);
            &&& merged.points.len() == total_points(clouds, n as nat)
            &&& forall|j: int|
                0 <= j < last.points.len() ==> #[trigger] merged.points[j] == tag_fields(
                    last.points[j],
                    same,
                    tags[n - 1],
                )
            &&& forall|i: int, j: int|
                0 <= i < n - 1 && 0 <= j < clouds[i].points.len() ==> #[trigger] merged.points[last.points.len()
                    + total_points(clouds, i as nat) + j] == tag_fields(#[trigger] clouds[i].points[j], same, tags[i])
            &&& forall|j: int| 0 <= j < merged.points.len() ==> (#[trigger] merged.points[j]).len() > 0
        }),
{
    let n = clouds.len();
    let last = clouds[n - 1];
    let same = same_fields(clouds);
    let merged = merge_result(clouds, tags)->Ok_0;
    let head = tag_points(last.points, same, tags[n - 1]);
    let rest = tagged_points(clouds, tags, same, (n - 1) as nat);
    lemma_tagged_points_index(clouds, tags, same, (n - 1) as nat);
    assert(merged.points == head + rest);
    assert(total_points(clouds, n as nat) == total_points(clouds, (n - 1) as nat) + last.points.len());
    assert forall|i: int, j: int|
        0 <= i < n - 1 && 0 <= j < clouds[i].points.len() implies #[trigger] merged.points[last.points.len()
        + total_points(clouds, i as nat) + j] == tag_fields(#[trigger] clouds[i].points[j], same, tags[i]) by {
        lemma_total_points_monotone(clouds, (i + 1) as nat, (n - 1) as nat);
        assert(total_points(clouds, (i + 1) as nat) == total_points(clouds, i as nat) + clouds[i].points.len());
        assert(rest[total_points(clouds, i as nat) + j] == tag_fields(clouds[i].points[j], same, tags[i]));
    }
    assert forall|j: int| 0 <= j < merged.points.len() implies (#[trigger] merged.points[j]).len() > 0 by {
        if j < last.points.len() {
            assert(merged.points[j] == head[j]);
        } else {
            let r = j - last.points.len();
            assert(merged.points[j] == rest[r]);
            lemma_tagged_points_nonempty(clouds, tags, same, (n - 1) as nat, r);
        }
    }
}

/// When every cloud has the same field names as the last one, whatever their
/// widths and heights, a merge keeps all the fields: the merged cloud has those
/// names followed by `filename`, and every point keeps all its entries,
/// followed by the tag of its cloud.
pub proof fn lemma_merge_same_names_keeps_fields<F, C>(clouds: Seq<CloudView<F, C>>, tags: Seq<(F, C)>)
    requires
        clouds.len() >= 2,
        tags.len() == clouds.len(),
        !clouds[clouds.len() - 1].field_names.contains(filename_name()),
        forall|i: int|
            0 <= i < clouds.len() ==> #[trigger] clouds[i].field_names == clouds[clouds.len()
                - 1].field_names,
    ensures
        ({
            let n = clouds.len();
            let last = clouds[n - 1];
            let merged = merge_result(clouds, tags)->Ok_0;
            &&& merge_result(clouds, tags) is Ok
            &&& merged.field_names == last.field_names.push(filename_name())
            &&& merged.points.len() == total_points(clouds, n as nat)
            &&& forall|j: int|
                0 <= j < last.points.len() ==> #[trigger] merged.points[j] == last.points[j].push(
                    tags[n - 1],
                )
            &&& forall|i: int, j: int|
                0 <= i < n - 1 && 0 <= j < clouds[i].points.len() ==> #[trigger] merged.points[last.points.len()
                    + total_points(clouds, i as nat) + j] == (#[trigger] clouds[i].points[j]).push(tags[i])
        }),
{
    let n = clouds.len();
    assert(clouds.last() == clouds[n - 1]);
    assert(same_fields(clouds));
    lemma_merge_keeps_points(clouds, tags);
}

/// Every tagged point holds at least its tag.
proof fn lemma_tagged_points_nonempty<F, C>(
    clouds: Seq<CloudView<F, C>>,
    tags: Seq<(F, C)>,
    same: bool,
    k: nat,
    r: int,
)
    requires
        0 <= r < tagged_points(clouds, tags, same, k).len(),
    ensures
        tagged_points(clouds, tags, same, k)[r].len() > 0,
    decreases k,
{
    if k > 0 {
        let km = (k - 1) as nat;
        let prev = tagged_points(clouds, tags, same, km);
        if r < prev.len() {
            lemma_tagged_points_nonempty(clouds, tags, same, km, r);
        }
    }
}

/// When every point of every cloud has one entry per field, so has every
/// point of the merged cloud: the `filename` field is the last field of the
/// merged cloud and the last entry of each point. (The number of points of
/// all the clouds is taken to fit in a `usize`, as it does for clouds in
/// memory.)
pub proof fn lemma_merge_consistent<F, C>(clouds: Seq<CloudView<F, C>>, tags: Seq<(F, C)>)
    requires
        tags.len() == clouds.len(),
        forall|i: int| 0 <= i < clouds.len() ==> (#[trigger] clouds[i]).wf() && clouds[i].consistent(),
        merge_result(clouds, tags) is Ok,
        total_points(clouds, clouds.len()) <= usize::MAX,
    ensures
        merge_result(clouds, tags)->Ok_0.consistent(),
        merge_result(clouds, tags)->Ok_0.wf(),
{
    let n = clouds.len();
    if n >= 2 {
        let last = clouds[n - 1];
        let same = same_fields(clouds);
        let merged = merge_result(clouds, tags)->Ok_0;
        lemma_merge_keeps_points(clouds, tags);
        lemma_tagged_points_index(clouds, tags, same, (n - 1) as nat);
        assert(clouds[n - 1].wf());
        assert forall|j: int| 0 <= j < merged.points.len() implies (#[trigger] merged.points[j]).len()
            == merged.field_names.len() by {
            if j < last.points.len() {
                assert(last.points[j].len() == last.field_names.len());
            } else {
                let r = j - last.points.len();
                let (i, p) = lemma_tagged_points_origin(clouds, tags, same, (n - 1) as nat, r);
                assert(clouds[i].wf() && clouds[i].consistent());
                assert(clouds[i].points[p].len() == clouds[i].field_names.len());
                if same {
                    assert(clouds[i].field_names == clouds.last().field_names);
                }
            }
        }
    }
}

/// Each tagged point is the tagged form of a point of one of the clouds.
proof fn lemma_tagged_points_origin<F, C>(
    clouds: Seq<CloudView<F, C>>,
    tags: Seq<(F, C)>,
    same: bool,
    k: nat,
    r: int,
) -> (origin: (int, int))
    requires
        0 <= r < tagged_points(clouds, tags, same, k).len(),
        k <= clouds.len(),
    ensures
        0 <= origin.0 < k,
        0 <= origin.1 < clouds[origin.0].points.len(),
        tagged_points(clouds, tags, same, k)[r] == tag_fields(
            clouds[origin.0].points[origin.1],
            same,
            tags[origin.0],
        ),
    decreases k,
{
    let km = (k - 1) as nat;
    let prev = tagged_points(clouds, tags, same, km);
    if r < prev.len() {
        lemma_tagged_points_origin(clouds, tags, same, km, r)
    } else {
        (km as int, r - prev.len())
    }
}

/// When the fields are `x`, `y` and `z` followed by fields of other names,
/// as in any PCD file and in any CSV or PLY file that makes a point cloud
/// without repeating a coordinate, every arranged point holds one entry per
/// field, so the cloud built from them is consistent.
pub proof fn lemma_rows_arranged_consistent<F, C>(
    names: Seq<Seq<char>>,
    plain_rows: Seq<Vec<(F, C)>>,
    mirrored_rows: Seq<Vec<(F, C)>>,
    default: (F, C),
    width: usize,
    height: usize,
)
    requires
        starts_with_xyz(names),
        forall|i: int|
            3 <= i < names.len() ==> #[trigger] names[i] != x_name() && names[i] != y_name()
                && names[i] != z_name(),
        plain_rows.len() == mirrored_rows.len(),
        forall|i: int| 0 <= i < plain_rows.len() ==> (#[trigger] plain_rows[i])@.len() >= names.len(),
        forall|i: int| 0 <= i < mirrored_rows.len() ==> (#[trigger] mirrored_rows[i])@.len() >= names.len(),
    ensures
        forall|i: int|
            0 <= i < plain_rows.len() ==> (#[trigger] rows_arranged(
                names,
                plain_rows,
                mirrored_rows,
                default,
            )[i]).len() == names.len(),
        built_cloud(names, rows_arranged(names, plain_rows, mirrored_rows, default), width, height) matches Ok(
            pc,
        ) ==> pc.consistent(),
{
    let rows = rows_arranged(names, plain_rows, mirrored_rows, default);
    assert forall|i: int| 0 <= i < plain_rows.len() implies (#[trigger] rows[i]).len() == names.len() by {
        assert(plain_rows[i]@.len() >= names.len());
        assert(mirrored_rows[i]@.len() >= names.len());
        lemma_arranged_xyz_first(names, plain_rows[i]@, mirrored_rows[i]@, default);
    }
}

/// Adding a field to a cloud whose points have one entry per field keeps it so.
pub proof fn lemma_add_field_consistent<F, C>(
    before: CloudView<F, C>,
    after: CloudView<F, C>,
    name: Seq<char>,
    entry: (F, C),
)
    requires
        before.consistent(),
        after.field_names == before.field_names.push(name),
        after.points == before.points.map_values(|f: Seq<(F, C)>| f.push(entry)),
    ensures
        after.consistent(),
        after.field_names.len() == before.field_names.len() + 1,
{
    assert forall|i: int| 0 <= i < after.points.len() implies (#[trigger] after.points[i]).len()
        == after.field_names.len() by {
        assert(after.points[i] == before.points[i].push(entry));
    }
}

/// Keeping only `x`, `y` and `z` of a well-formed cloud whose points have
/// one entry per field leaves exactly the fields `x`, `y` and `z`, with
/// three entries per point.
pub proof fn lemma_truncate_xyz_consistent<F, C>(before: CloudView<F, C>, after: CloudView<F, C>)
    requires
        before.wf(),
        before.consistent(),
        after.field_names == before.field_names.take(3),
        after.points == before.points.map_values(|f: Seq<(F, C)>| keep_xyz(f)),
    ensures
        after.consistent(),
        after.field_names == seq![x_name(), y_name(), z_name()],
{
    assert(after.field_names =~= seq![x_name(), y_name(), z_name()]);
    assert forall|i: int| 0 <= i < after.points.len() implies (#[trigger] after.points[i]).len()
        == after.field_names.len() by {
        assert(before.points[i].len() == before.field_names.len());
    }
}

} // verus!
