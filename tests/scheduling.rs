use scanline_tracer::bitmap::Bitmap;
use scanline_tracer::scheduler::{worker_count, workers_for, JobStep, ScanlineJob, ScanlineQueue};

fn shade(x: u32, y: u32) -> (u8, u8, u8) {
    ((x * 10 + y) as u8, (y * 7) as u8, 200)
}

/// Runs one job on row `y` to its end, cancelling before column `cancel_at`.
fn run_job(image: &mut Bitmap, y: u32, cancel_at: Option<u32>) -> bool {
    let mut job = ScanlineJob::new(y, image.width());
    loop {
        let cancelled = cancel_at.map_or(false, |c| job.pixels().len() as u32 / 4 >= c);
        match job.next(cancelled) {
            JobStep::Shade(x) => {
                let (r, g, b) = shade(x, y);
                job.push_color(r, g, b);
            }
            JobStep::Complete => {
                image.set_scanline(job.row(), job.pixels());
                return true;
            }
            JobStep::Abandon => return false,
        }
    }
}

#[test]
fn queue_hands_out_every_row_once_in_order() {
    let mut q = ScanlineQueue::new(5);
    assert_eq!(q.len(), 5);
    let mut got = Vec::new();
    while let Some(y) = q.pop_front() {
        got.push(y);
    }
    assert_eq!(got, vec![0, 1, 2, 3, 4]);
    assert!(q.is_empty());
    assert_eq!(q.pop_front(), None);
    assert_eq!(q.height(), 5);
}

#[test]
fn empty_image_queue_is_empty() {
    let mut q = ScanlineQueue::new(0);
    assert!(q.is_empty());
    assert_eq!(q.pop_front(), None);
}

#[test]
fn job_shades_columns_left_to_right_then_completes() {
    let mut job = ScanlineJob::new(4, 3);
    assert_eq!(job.next(false), JobStep::Shade(0));
    assert_eq!(job.next(false), JobStep::Shade(0));
    job.push_color(1, 2, 3);
    assert_eq!(job.next(false), JobStep::Shade(1));
    job.push_color(4, 5, 6);
    assert_eq!(job.next(false), JobStep::Shade(2));
    job.push_color(7, 8, 9);
    assert_eq!(job.next(false), JobStep::Complete);
    assert_eq!(job.row(), 4);
    assert_eq!(job.width(), 3);
    assert_eq!(job.pixels(), &vec![1, 2, 3, 255, 4, 5, 6, 255, 7, 8, 9, 255]);
}

#[test]
fn zero_width_job_completes_at_once() {
    let mut job = ScanlineJob::new(0, 0);
    assert_eq!(job.next(false), JobStep::Complete);
}

#[test]
fn cancelled_job_stays_abandoned() {
    let mut job = ScanlineJob::new(0, 4);
    assert_eq!(job.next(false), JobStep::Shade(0));
    job.push_color(1, 1, 1);
    assert_eq!(job.next(true), JobStep::Abandon);
    assert_eq!(job.next(false), JobStep::Abandon);
    assert_eq!(job.pixels().len(), 4);
}

#[test]
fn out_of_order_rows_match_top_to_bottom_render() {
    let (w, h) = (4u32, 5u32);
    let mut reference = Bitmap::new(w, h);
    for y in 0..h {
        assert!(run_job(&mut reference, y, None));
    }
    let mut shuffled = Bitmap::new(w, h);
    for &y in &[3u32, 0, 4, 2, 1] {
        assert!(run_job(&mut shuffled, y, None));
    }
    assert_eq!(reference.get_pixels(), shuffled.get_pixels());
    let (r, g, b) = shade(3, 2);
    let offset = ((2 * w + 3) * 4) as usize;
    assert_eq!(&reference.get_pixels()[offset..offset + 4], &[r, g, b, 255]);
}

#[test]
fn cancelled_row_keeps_its_initial_bytes() {
    let (w, h) = (4u32, 3u32);
    let mut image = Bitmap::new(w, h);
    image.fill(9, 9, 9, 9);
    assert!(run_job(&mut image, 0, None));
    assert!(!run_job(&mut image, 1, Some(2)));
    let row_bytes = (w * 4) as usize;
    let p = image.get_pixels();
    assert!(p[row_bytes..2 * row_bytes].iter().all(|&v| v == 9));
    assert!(p[2 * row_bytes..].iter().all(|&v| v == 9));
    let (r, g, b) = shade(1, 0);
    assert_eq!(&p[4..8], &[r, g, b, 255]);
}

#[test]
fn one_cpu_is_left_for_display() {
    assert_eq!(workers_for(8), 7);
    assert_eq!(workers_for(2), 1);
    assert_eq!(workers_for(1), 1);
    assert_eq!(workers_for(0), 1);
    assert!(worker_count() >= 1);
}
